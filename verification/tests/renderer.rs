use danmaku_renderer::danmaku::{Danmaku, DanmakuColor, DanmakuSize, DanmakuTime, DanmakuType};
use danmaku_renderer::layout::{DanmakuPosition, LayoutMode};
use danmaku_renderer::manager::{
    DanmakuTimeChunk, DanmakuTimeChunkProvider, LayoutLine, PhysicalGlyph, ShapedLine,
};
use danmaku_renderer::renderer::noop::NoopRenderCache;
use danmaku_renderer::renderer::stride::pad_rows;
use danmaku_renderer::renderer::wgpu::config::ConfigUniform;
use danmaku_renderer::renderer::wgpu::glyph_atlas::{AtlasRect, GlyphLayer, Placement};
use danmaku_renderer::renderer::wgpu::glyph_manager::{
    GlyphConfigUniform, GlyphTextureManager, GlyphUpload,
};
use danmaku_renderer::renderer::wgpu::glyph_shadow::{GlyphShadow, Vertex as ShadowVertex};
use danmaku_renderer::renderer::wgpu::index_buffer::IndexBuffer;
use danmaku_renderer::renderer::wgpu::timestamp::TimestampUniform;
use danmaku_renderer::renderer::wgpu::vertex_buffer::{Vertex, VertexBuffer, VertexBufferManager};
use danmaku_renderer::renderer::wgpu::{WgpuRenderCache, WgpuWorkerBuffer};
use danmaku_renderer::sources::VecDanmakuSource;
use danmaku_renderer::worker::ChunkBuffer;
use std::sync::Arc;
use std::time::Duration;

fn config() -> ConfigUniform {
    ConfigUniform::new((1280, 720), 32, Duration::from_secs(8))
}

fn clock(millis: u32) -> TimestampUniform {
    TimestampUniform::from(DanmakuTime::from_millis(millis))
}

#[test]
fn config_uniform_holds_the_screen() {
    let config = config();
    assert_eq!(config.screen_width, 1280);
    assert_eq!(config.screen_height, 720);
    assert_eq!(config.line_height, 32);
    assert_eq!(config.lifetime, 8000);
    assert_eq!(config.words(), [1280, 720, 32, 8000]);
    assert_eq!(TimestampUniform::default().time_millis(), 0);
    assert_eq!(clock(77).words(), [77]);
    let glyphs = GlyphConfigUniform { texture_width: 256, texture_height: 512 };
    assert_eq!(glyphs.words(), [256, 512]);
}

#[test]
fn config_uniform_cuts_the_lifetime_to_32_bits() {
    let config = ConfigUniform::new((1, 1), 1, Duration::from_millis(0x1_0000_0005));
    assert_eq!(config.lifetime, 5);
}

#[test]
fn words_become_four_bytes_each() {
    let bytes = ConfigUniform::new((1, 0x0102_0304), u32::MAX, Duration::from_millis(7)).bytes();
    assert_eq!(bytes.len(), 16);
    assert_eq!(&bytes[8..12], &[255, 255, 255, 255]);
    assert_eq!(u32::from_ne_bytes([bytes[4], bytes[5], bytes[6], bytes[7]]), 0x0102_0304);
    assert_eq!(clock(0x0A0B_0C0D).bytes().len(), 4);
    let glyphs = GlyphConfigUniform { texture_width: 256, texture_height: 512 };
    assert_eq!(glyphs.bytes().len(), 8);
    assert_eq!(u32::from_ne_bytes([glyphs.bytes()[4], glyphs.bytes()[5], glyphs.bytes()[6], glyphs.bytes()[7]]), 512);
}

#[test]
fn comment_is_on_screen_for_one_lifetime() {
    let config = config();
    let time = DanmakuTime::from_millis(1000);
    assert!(!config.is_on_screen(time, clock(999)));
    assert!(config.is_on_screen(time, clock(1000)));
    assert!(config.is_on_screen(time, clock(8999)));
    assert!(!config.is_on_screen(time, clock(9000)));
    assert_eq!(config.box_origin(DanmakuPosition::Scroll(0), 100, time, clock(999)), None);
    assert_eq!(config.box_origin(DanmakuPosition::Top(0), 100, time, clock(9000)), None);
}

#[test]
fn scrolling_comment_crosses_the_screen() {
    let config = config();
    let time = DanmakuTime::from_millis(1000);
    let lane = DanmakuPosition::Scroll(2);
    // It enters at the right edge, on the baseline of the third lane.
    assert_eq!(config.box_origin(lane, 320, time, clock(1000)), Some((1280, 96)));
    // After half a lifetime it has covered half of 1280 + 320 pixels.
    assert_eq!(config.box_origin(lane, 320, time, clock(5000)), Some((480, 96)));
    // One millisecond before it is gone its tail is all but off the screen.
    assert_eq!(config.box_origin(lane, 320, time, clock(8999)), Some((-319, 96)));
    // 1600 * 1 / 8000 of a pixel is no pixel yet.
    assert_eq!(config.box_origin(lane, 320, time, clock(1001)), Some((1280, 96)));
    assert_eq!(config.box_origin(lane, 320, time, clock(1005)), Some((1279, 96)));
}

#[test]
fn anchored_comments_are_centred() {
    let config = config();
    let time = DanmakuTime::from_millis(0);
    assert_eq!(config.box_origin(DanmakuPosition::Top(0), 280, time, clock(10)), Some((500, 32)));
    assert_eq!(config.box_origin(DanmakuPosition::Top(3), 280, time, clock(10)), Some((500, 128)));
    assert_eq!(
        config.box_origin(DanmakuPosition::Bottom(0), 280, time, clock(10)),
        Some((500, 720))
    );
    assert_eq!(
        config.box_origin(DanmakuPosition::Bottom(2), 281, time, clock(10)),
        Some((499, 656))
    );
    // A line wider than the screen sticks out on both sides.
    assert_eq!(
        config.box_origin(DanmakuPosition::Top(0), 1283, time, clock(10)),
        Some((-2, 32))
    );
}

#[test]
fn index_table_grows_quad_by_quad() {
    let mut indices = IndexBuffer::default();
    assert!(!indices.ensure_size(0));
    assert!(indices.indices().is_empty());
    assert!(indices.ensure_size(2));
    assert_eq!(indices.indices(), &vec![0, 2, 1, 1, 2, 3, 4, 6, 5, 5, 6, 7]);
    assert!(!indices.ensure_size(1));
    assert!(!indices.ensure_size(2));
    assert!(indices.ensure_size(3));
    assert_eq!(indices.indices().len(), 18);
    assert_eq!(&indices.indices()[12..], &[8, 10, 9, 9, 10, 11]);
    assert_eq!(indices.contents().len(), 72);
    assert_eq!(indices.buffer_slice(3), 72);
    assert_eq!(indices.buffer_slice(0), 0);
}

fn bitmap(width: u32, height: u32) -> Placement {
    Placement { left: 1, top: 10, width, height }
}

#[test]
fn glyph_layer_gives_out_rectangles() {
    let mut layer = GlyphLayer::new((256, 256));
    let first = layer.new_item(bitmap(20, 30), 2).unwrap();
    assert_eq!(first.tex_size, (24, 34));
    assert_eq!(first.placement, Placement { left: -1, top: 12, width: 24, height: 34 });
    assert_eq!(first.tex_coords, (first.rect.min_x as u32, first.rect.min_y as u32));
    assert_eq!(first.rect.max_x - first.rect.min_x, 24);
    assert!(first.rect.max_y - first.rect.min_y >= 34);
    assert_eq!(first.bitmap_origin(2), (first.tex_coords.0 + 2, first.tex_coords.1 + 2));
    let second = layer.new_item(bitmap(20, 30), 2).unwrap();
    let apart = first.rect.max_x <= second.rect.min_x
        || second.rect.max_x <= first.rect.min_x
        || first.rect.max_y <= second.rect.min_y
        || second.rect.max_y <= first.rect.min_y;
    assert!(apart);
    assert!(layer.new_item(bitmap(300, 10), 0).is_none());
    layer.grow((512, 512));
    assert!(layer.new_item(bitmap(300, 10), 0).is_some());
    layer.clear();
    assert!(layer.new_item(bitmap(500, 500), 0).is_some());
}

#[test]
fn glyph_layer_refuses_what_cannot_be_asked() {
    assert!(GlyphLayer::can_ask(bitmap(32768, 1), 0));
    assert!(!GlyphLayer::can_ask(bitmap(32767, 1), 1));
    assert!(!GlyphLayer::can_ask(bitmap(1, 1), 40000));
    assert!(!GlyphLayer::can_ask(Placement { left: i32::MIN, top: 0, width: 1, height: 1 }, 1));
    assert!(!GlyphLayer::can_ask(Placement { left: 0, top: i32::MAX, width: 1, height: 1 }, 1));
    let mut layer = GlyphLayer::new((256, 256));
    assert!(layer.new_item(bitmap(40000, 1), 0).is_none());
    assert!(layer.new_item(Placement { left: i32::MIN, top: 0, width: 1, height: 1 }, 1).is_none());
}

#[test]
fn atlas_grows_when_it_is_full() {
    let mut atlas = GlyphTextureManager::new((256, 256), 1);
    let mut placed = Vec::new();
    let mut grown = None;
    for key in 0..64u64 {
        match atlas.insert_glyph(key, bitmap(62, 62)) {
            GlyphUpload::Placed { item, grown_from } => {
                if grown_from.is_some() && grown.is_none() {
                    grown = Some((key, grown_from.unwrap(), atlas.texture_size()));
                }
                placed.push(item);
            }
            other => panic!("unexpected {:?}", other),
        }
    }
    // Sixteen glyphs of 64 by 64 fill 256 by 256; the next one doubles the atlas.
    let (key, from, to) = grown.unwrap();
    assert!(key <= 16);
    assert_eq!(from, (256, 256));
    assert_eq!(to, (512, 512));
    assert_eq!(atlas.texture_size(), (512, 512));
    assert_eq!(atlas.config_uniform(), GlyphConfigUniform { texture_width: 512, texture_height: 512 });
    // What was placed before stays where it was, and nothing overlaps.
    for (key, item) in placed.iter().enumerate() {
        assert_eq!(atlas.find(key as u64), Some(item));
        assert!(item.rect.max_x <= 512 && item.rect.max_y <= 512);
        assert_eq!(item.tex_size, (64, 64));
    }
    for a in 0..placed.len() {
        for b in (a + 1)..placed.len() {
            let (p, q) = (placed[a].rect, placed[b].rect);
            assert!(
                p.max_x <= q.min_x || q.max_x <= p.min_x || p.max_y <= q.min_y || q.max_y <= p.min_y
            );
        }
    }
}

#[test]
fn atlas_notes_glyphs_without_a_bitmap() {
    let mut atlas = GlyphTextureManager::new((256, 256), 3);
    assert!(!atlas.has_glyph(5));
    assert_eq!(atlas.insert_glyph(5, bitmap(0, 10)), GlyphUpload::Empty);
    assert!(atlas.has_glyph(5));
    assert_eq!(atlas.find(5), None);
    assert_eq!(atlas.insert_glyph(6, bitmap(10, 0)), GlyphUpload::Empty);
    assert!(atlas.flush().is_none());
    assert_eq!(atlas.shadow_width(), 3);
}

#[test]
fn atlas_gives_up_on_what_is_too_large() {
    let mut atlas = GlyphTextureManager::new((256, 256), 0);
    assert_eq!(
        atlas.insert_glyph(1, bitmap(40000, 10)),
        GlyphUpload::TooLarge { grown_from: None }
    );
    assert_eq!(atlas.texture_size(), (256, 256));
    assert!(!atlas.has_glyph(1));
    // Room for this one is found once the atlas has doubled three times.
    match atlas.insert_glyph(2, bitmap(2000, 10)) {
        GlyphUpload::Placed { item, grown_from } => {
            assert_eq!(grown_from, Some((256, 256)));
            assert_eq!(item.tex_size, (2000, 10));
        }
        other => panic!("unexpected {:?}", other),
    }
    assert_eq!(atlas.texture_size(), (2048, 2048));
}

#[test]
fn atlas_hands_the_shadow_quads_out_once() {
    let mut atlas = GlyphTextureManager::new((256, 256), 2);
    let first = match atlas.insert_glyph(1, bitmap(10, 12)) {
        GlyphUpload::Placed { item, .. } => item,
        other => panic!("unexpected {:?}", other),
    };
    atlas.insert_glyph(2, bitmap(0, 0));
    atlas.insert_glyph(3, bitmap(5, 5));
    let (glyphs, vertexs) = atlas.flush().unwrap();
    assert_eq!(glyphs, 2);
    assert_eq!(vertexs.len(), 8);
    let (x, y) = first.tex_coords;
    assert_eq!(vertexs[0].position, [x, y]);
    assert_eq!(vertexs[1].position, [x + 14, y]);
    assert_eq!(vertexs[2].position, [x, y + 16]);
    assert_eq!(vertexs[3].position, [x + 14, y + 16]);
    assert!(atlas.flush().is_none());
    atlas.clear();
    assert!(!atlas.has_glyph(1));
    atlas.new_param(7);
    assert_eq!(atlas.shadow_width(), 7);
}

#[test]
fn shadow_quads_are_the_corners() {
    let quad = ShadowVertex::new((10, 20), (3, 4));
    assert_eq!(quad[0].position, [10, 20]);
    assert_eq!(quad[1].position, [13, 20]);
    assert_eq!(quad[2].position, [10, 24]);
    assert_eq!(quad[3].position, [13, 24]);
    let mut shadow = GlyphShadow::new();
    assert_eq!(shadow.glyphs(), 0);
    let mut layer = GlyphLayer::new((64, 64));
    let item = layer.new_item(bitmap(4, 4), 0).unwrap();
    shadow.new_glyph(&item);
    shadow.new_glyph(&item);
    assert_eq!(shadow.glyphs(), 2);
    assert_eq!(shadow.vertexs().len(), 8);
    shadow.clear();
    assert_eq!(shadow.glyphs(), 0);
}

fn chunk_of(kind: DanmakuType, index: u32) -> Arc<DanmakuTimeChunk> {
    let mut provider = DanmakuTimeChunkProvider::new(
        Duration::from_millis(1000),
        (1280, 720),
        32,
        LayoutMode::ShowAll,
        VecDanmakuSource::new(vec![Danmaku {
            time: DanmakuTime::from_millis(index * 1000 + 250),
            kind,
            size: DanmakuSize::Regular,
            color: DanmakuColor::from_rgb(1, 2, 3),
            content: "ab".to_string(),
        }]),
    );
    let line = ShapedLine {
        layout_line: LayoutLine { w: 21, max_descent: 4 },
        physical_glyphs: vec![
            PhysicalGlyph { cache_key: 100, x: 0, y: 0 },
            PhysicalGlyph { cache_key: 200, x: 11, y: -1 },
            PhysicalGlyph { cache_key: 300, x: 21, y: 0 },
        ],
    };
    provider.get_chunk(vec![Some(line)], None, index)
}

#[test]
fn vertices_follow_the_glyphs() {
    let chunk = chunk_of(DanmakuType::Bottom, 0);
    let mut atlas = GlyphTextureManager::new((256, 256), 1);
    let a = match atlas.insert_glyph(100, bitmap(8, 9)) {
        GlyphUpload::Placed { item, .. } => item,
        other => panic!("unexpected {:?}", other),
    };
    atlas.insert_glyph(300, bitmap(0, 0));
    // Glyph 200 is unknown to the atlas and glyph 300 has no bitmap: one quad.
    let buffer = VertexBuffer::new(&chunk, &atlas);
    assert_eq!(buffer.glyphs(), 1);
    assert_eq!(buffer.index(), 0);
    assert_eq!(buffer.base_state_index(), 0);
    let vertexs = buffer.vertexs();
    assert_eq!(vertexs.len(), 4);
    let (u, v) = a.tex_coords;
    // The bitmap lies at x = 0 + (1 - 1), y = 0 - (10 + 1) - 4, and is 10 by 11 with its shadow.
    let corner = |offset: (i32, i32), tex_coords: (u32, u32)| Vertex {
        time: 250,
        track_type: 2,
        track: 0,
        line_width: 21,
        offset,
        tex_coords,
        color: DanmakuColor::from_rgb(1, 2, 3),
    };
    assert_eq!(vertexs[0], corner((0, -15), (u, v)));
    assert_eq!(vertexs[1], corner((10, -15), (u + 10, v)));
    assert_eq!(vertexs[2], corner((0, -4), (u, v + 11)));
    assert_eq!(vertexs[3], corner((10, -4), (u + 10, v + 11)));
    let quad = Vertex::new(&chunk.items[0], &a, &PhysicalGlyph { cache_key: 100, x: i32::MAX, y: i32::MIN });
    assert_eq!(quad[0].offset, (i32::MAX, i32::MIN));
    assert_eq!(quad[3].offset, (i32::MAX, i32::MIN + 11));
}

#[test]
fn vertex_lanes_are_numbered_by_kind() {
    let atlas = {
        let mut atlas = GlyphTextureManager::new((64, 64), 0);
        atlas.insert_glyph(100, bitmap(2, 2));
        atlas
    };
    let scroll = VertexBuffer::new(&chunk_of(DanmakuType::Scroll, 0), &atlas);
    let top = VertexBuffer::new(&chunk_of(DanmakuType::Top, 0), &atlas);
    assert_eq!(scroll.vertexs()[0].track_type, 0);
    assert_eq!(top.vertexs()[0].track_type, 1);
    assert_eq!(top.vertexs()[0].track, 0);
}

#[test]
fn vertex_tables_are_kept_for_eight_chunks() {
    let atlas = GlyphTextureManager::new((64, 64), 0);
    let mut manager = VertexBufferManager::default();
    let chunks = (0..10u32).map(|index| chunk_of(DanmakuType::Scroll, index)).collect::<Vec<_>>();
    let first = manager.get(&chunks[0], &atlas);
    assert!(Arc::ptr_eq(&first, &manager.get(&chunks[0], &atlas)));
    for chunk in &chunks[1..8] {
        manager.get(chunk, &atlas);
    }
    // Eight tables are kept: the first one is still there, and used again now.
    assert!(Arc::ptr_eq(&first, &manager.get(&chunks[0], &atlas)));
    // The ninth table pushes out the one that was used longest ago: that of chunk 1.
    let second = manager.get(&chunks[1], &atlas);
    manager.get(&chunks[8], &atlas);
    assert!(Arc::ptr_eq(&first, &manager.get(&chunks[0], &atlas)));
    manager.get(&chunks[9], &atlas);
    assert!(!Arc::ptr_eq(&second, &manager.get(&chunks[2], &atlas)));
    manager.clear();
    assert!(!Arc::ptr_eq(&first, &manager.get(&chunks[0], &atlas)));
}

#[test]
fn render_cache_prepares_and_flushes() {
    let mut cache = WgpuRenderCache::new((256, 256), 1);
    let chunk = chunk_of(DanmakuType::Scroll, 3);
    assert_eq!(cache.prepare(&chunk), vec![100, 200, 300]);
    assert!(matches!(cache.insert_glyph(100, bitmap(8, 8)), GlyphUpload::Placed { .. }));
    assert!(matches!(cache.insert_glyph(300, bitmap(0, 8)), GlyphUpload::Empty));
    assert_eq!(cache.prepare(&chunk), vec![200]);
    let batch = cache.flush().unwrap();
    assert_eq!(batch.glyphs, 1);
    assert_eq!(batch.vertexs.len(), 4);
    assert!(batch.indices_grew);
    assert_eq!(cache.index_buffer().indices().len(), 6);
    assert!(cache.flush().is_none());

    let buffer: Arc<VertexBuffer> = ChunkBuffer::new(&chunk, &mut cache);
    assert_eq!(<VertexBuffer as ChunkBuffer<WgpuRenderCache>>::index(&buffer), 3);
    assert_eq!(<VertexBuffer as ChunkBuffer<WgpuRenderCache>>::base_state_index(&buffer), 3);
    assert_eq!(buffer.glyphs(), 1);
    let mut shared = WgpuWorkerBuffer::new(cache);
    let current: Arc<VertexBuffer> = ChunkBuffer::new(&chunk, &mut shared.cache);
    assert!(Arc::ptr_eq(&buffer, &current));
    let next: Arc<VertexBuffer> = ChunkBuffer::new(&chunk_of(DanmakuType::Scroll, 4), &mut shared.cache);
    shared.store(None, current, next);
    assert!(shared.acquire_index(4).is_some());

    // Another shadow width changes the look of the glyphs: all is dropped.
    shared.cache.new_param(false, 1);
    assert!(shared.cache.glyph_texture_manager().has_glyph(100));
    shared.cache.new_param(false, 2);
    assert!(!shared.cache.glyph_texture_manager().has_glyph(100));
    assert_eq!(shared.cache.glyph_texture_manager().shadow_width(), 2);
    shared.cache.insert_glyph(100, bitmap(8, 8));
    shared.cache.new_param(true, 2);
    assert!(!shared.cache.glyph_texture_manager().has_glyph(100));
}

#[test]
fn noop_cache_is_a_unit() {
    let cache = NoopRenderCache::default();
    assert_eq!(format!("{:?}", cache), "NoopRenderCache");
}

#[test]
fn rows_are_padded_to_the_stride() {
    let data = [1u8, 2, 3, 4, 5, 6];
    assert_eq!(pad_rows(&data, 3, 2, 4), Some(vec![1, 2, 3, 0, 4, 5, 6, 0]));
    assert_eq!(pad_rows(&data, 2, 3, 2), Some(vec![1, 2, 3, 4, 5, 6]));
    assert_eq!(pad_rows(&data, 6, 1, 8), Some(vec![1, 2, 3, 4, 5, 6, 0, 0]));
    assert_eq!(pad_rows(&data, 3, 2, 2), None);
    assert_eq!(pad_rows(&data, 4, 2, 4), None);
    assert_eq!(pad_rows(&data, 3, 3, 4), None);
    assert_eq!(pad_rows(&[], 0, 5, 3), Some(vec![0; 15]));
    assert_eq!(pad_rows(&[], 7, 0, 8), Some(Vec::new()));
    assert_eq!(pad_rows(&data, 0, 6, 1), None);
}

#[test]
fn glyph_item_follows_the_answer_of_the_allocator() {
    let rect = AtlasRect { min_x: 64, min_y: 8, max_x: 88, max_y: 48 };
    let item = GlyphLayer::item_for(bitmap(20, 30), 2, Some((rect, 7))).unwrap();
    assert_eq!(item.placement, Placement { left: -1, top: 12, width: 24, height: 34 });
    assert_eq!(item.tex_coords, (64, 8));
    assert_eq!(item.tex_size, (24, 34));
    assert_eq!(item.rect, rect);
    assert_eq!(item.allocation, 7);
    assert_eq!(GlyphLayer::item_for(bitmap(20, 30), 2, None), None);
    assert_eq!(GlyphLayer::item_for(bitmap(20, 30), 40000, Some((rect, 7))), None);
    let outside = AtlasRect { min_x: -1, min_y: 0, max_x: 23, max_y: 40 };
    assert_eq!(GlyphLayer::item_for(bitmap(20, 30), 2, Some((outside, 7))), None);
    // What the layer gives is what the allocator's answer makes.
    let mut layer = GlyphLayer::new((256, 256));
    let given = layer.new_item(bitmap(20, 30), 2).unwrap();
    assert_eq!(
        GlyphLayer::item_for(bitmap(20, 30), 2, Some((given.rect, given.allocation))),
        Some(given)
    );
}

#[test]
fn words_go_out_in_the_byte_order_of_the_machine() {
    let config = ConfigUniform::new((0x0102_0304, 0x0A0B_0C0D), 7, Duration::from_millis(0x1122_3344));
    let mut expected = Vec::new();
    for word in [0x0102_0304u32, 0x0A0B_0C0D, 7, 0x1122_3344] {
        expected.extend_from_slice(&word.to_ne_bytes());
    }
    assert_eq!(config.bytes(), expected);
    let low_first: Vec<u8> = vec![0x04, 0x03, 0x02, 0x01];
    let high_first: Vec<u8> = vec![0x01, 0x02, 0x03, 0x04];
    let first = config.bytes()[0..4].to_vec();
    assert!(first == low_first || first == high_first);
    assert_eq!(clock(0x0A0B_0C0D).bytes(), 0x0A0B_0C0Du32.to_ne_bytes().to_vec());
}
