use danmaku_renderer::danmaku::{Danmaku, DanmakuColor, DanmakuSize, DanmakuTime, DanmakuType};
use danmaku_renderer::layout::{DanmakuItem, DanmakuPosition, LayoutMode};
use danmaku_renderer::manager::{
    DanmakuTimeChunkProvider, LayoutLine, LayoutedDanmakuItem, PhysicalGlyph, ShapedLine,
};
use danmaku_renderer::sources::VecDanmakuSource;
use std::time::Duration;

fn comment(millis: u32, kind: DanmakuType, content: &str) -> Danmaku {
    Danmaku {
        time: DanmakuTime::from_millis(millis),
        kind,
        size: DanmakuSize::Regular,
        color: DanmakuColor::from_code(0xFFFFFF),
        content: content.to_string(),
    }
}

/// A stand-in for the shaper: ten pixels and one glyph for each character.
fn shape(text: &str) -> Option<ShapedLine> {
    if text.is_empty() {
        return None;
    }
    let glyphs = text
        .chars()
        .enumerate()
        .map(|(i, c)| PhysicalGlyph { cache_key: c as u64, x: 10 * i as i32, y: 0 })
        .collect::<Vec<_>>();
    Some(ShapedLine {
        layout_line: LayoutLine { w: 10 * glyphs.len() as u32, max_descent: 3 },
        physical_glyphs: glyphs,
    })
}

fn provider(
    millis: u64,
    mode: LayoutMode,
    comments: Vec<Danmaku>,
) -> DanmakuTimeChunkProvider<VecDanmakuSource> {
    DanmakuTimeChunkProvider::new(
        Duration::from_millis(millis),
        (1280, 720),
        32,
        mode,
        VecDanmakuSource::new(comments),
    )
}

fn shaped_for(provider: &DanmakuTimeChunkProvider<VecDanmakuSource>, index: u32) -> Vec<Option<ShapedLine>> {
    provider.chunk_comments(index).iter().map(|item| shape(&item.content)).collect()
}

#[test]
fn single_scroll_chunk() {
    let mut provider = provider(
        8000,
        LayoutMode::ShowAll,
        vec![comment(1000, DanmakuType::Scroll, "hi")],
    );
    let shaped = shaped_for(&provider, 0);
    let chunk = provider.get_chunk(shaped, None, 0);
    assert_eq!(chunk.index, 0);
    assert_eq!(chunk.base_state_index, 0);
    assert_eq!(chunk.items.len(), 1);
    assert_eq!(chunk.items[0].position, DanmakuPosition::Scroll(0));
    assert_eq!(chunk.items[0].item.time, DanmakuTime::from_millis(1000));
    assert_eq!(chunk.items[0].item.width(), 20);
    assert_eq!(chunk.items[0].item.color, DanmakuColor::from_code(0xFFFFFF));
    let ids: Vec<u64> = chunk.glyph_ids().iter().copied().collect();
    assert_eq!(ids, vec!['h' as u64, 'i' as u64]);
}

#[test]
fn chunk_boundary() {
    let mut provider = provider(
        1000,
        LayoutMode::ShowAll,
        vec![
            comment(999, DanmakuType::Scroll, "last of zero"),
            comment(1000, DanmakuType::Scroll, "first of one"),
        ],
    );
    assert_eq!(provider.chunk_comments(0).len(), 1);
    assert_eq!(provider.chunk_comments(1).len(), 1);
    let shaped = shaped_for(&provider, 0);
    let zero = provider.get_chunk(shaped, None, 0);
    assert_eq!(zero.items.len(), 1);
    assert_eq!(zero.items[0].item.time, DanmakuTime::from_millis(999));
    let shaped = shaped_for(&provider, 1);
    let one = provider.get_chunk(shaped, Some(0), 1);
    assert_eq!(one.items.len(), 1);
    assert_eq!(one.items[0].item.time, DanmakuTime::from_millis(1000));
    // The state of chunk 0 went into chunk 1: the run still starts at 0, and
    // the lane taken at 999 ms is still taken at 1000 ms.
    assert_eq!(one.base_state_index, 0);
    assert_eq!(one.items[0].position, DanmakuPosition::Scroll(1));
}

#[test]
fn state_restart_is_visible_in_the_base() {
    let mut provider = provider(
        1000,
        LayoutMode::ShowAll,
        vec![comment(5500, DanmakuType::Top, "late")],
    );
    let shaped = shaped_for(&provider, 5);
    let first = provider.get_chunk(shaped, None, 5);
    assert_eq!(first.base_state_index, 5);
    assert_eq!(first.index, 5);
    assert!(provider.cached_chunk(None, 5).is_some());
    assert!(provider.cached_chunk(Some(5), 5).is_some());
    // A hint that names another start does not match the chunk in store.
    assert!(provider.cached_chunk(Some(0), 5).is_none());
    let shaped = shaped_for(&provider, 5);
    let again = provider.get_chunk(shaped, Some(0), 5);
    assert_eq!(again.base_state_index, 5);
    assert_eq!(again.items.len(), 1);
}

#[test]
fn chunk_items_lie_in_the_chunk() {
    let comments = (0..200u32)
        .map(|i| comment(i * 137, DanmakuType::Scroll, "abc"))
        .collect::<Vec<_>>();
    let mut provider = provider(1000, LayoutMode::ShowAll, comments);
    let mut seen = 0;
    for index in 0..30u32 {
        let shaped = shaped_for(&provider, index);
        let chunk = provider.get_chunk(shaped, Some(0), index);
        assert_eq!(chunk.index, index);
        assert_eq!(chunk.base_state_index, 0);
        for item in &chunk.items {
            let time = item.item.time.as_millis();
            assert!(index * 1000 <= time && time < (index + 1) * 1000);
            seen += 1;
        }
    }
    assert_eq!(seen, 200);
}

#[test]
fn same_request_twice_gives_the_same_chunk() {
    let mut provider = provider(
        1000,
        LayoutMode::NoOverlap(100),
        vec![
            comment(10, DanmakuType::Scroll, "aaaa"),
            comment(20, DanmakuType::Top, "bb"),
            comment(30, DanmakuType::Scroll, "cccccc"),
        ],
    );
    let shaped = shaped_for(&provider, 0);
    let once = provider.get_chunk(shaped, None, 0);
    let twice = provider.get_chunk(Vec::new(), None, 0);
    assert!(std::sync::Arc::ptr_eq(&once, &twice));
    assert_eq!(once.items.len(), twice.items.len());
}

#[test]
fn replay_from_the_base_gives_the_same_lanes() {
    let wide = "w".repeat(100);
    let comments = (0..600u32)
        .map(|i| comment(i * 10, DanmakuType::Scroll, if i % 3 == 0 { "x" } else { wide.as_str() }))
        .collect::<Vec<_>>();
    // Chunk by chunk, state carried over.
    let mut chunked = provider(1000, LayoutMode::NoOverlap(100), comments.clone());
    let mut reported: Vec<(u32, DanmakuPosition)> = Vec::new();
    for index in 0..6u32 {
        let shaped = shaped_for(&chunked, index);
        let chunk = chunked.get_chunk(shaped, Some(0), index);
        assert_eq!(chunk.base_state_index, 0);
        for item in &chunk.items {
            reported.push((item.item.time.as_millis(), item.position));
        }
    }
    // All at once through a fresh state.
    let mut state = danmaku_renderer::layout::DanmakuTrackState::new(
        LayoutMode::NoOverlap(100),
        (1280, 720),
        32,
        Duration::from_millis(1000),
    );
    let mut replayed: Vec<(u32, DanmakuPosition)> = Vec::new();
    for item in &comments {
        let line = shape(&item.content).unwrap();
        let laid = LayoutedDanmakuItem::new(line, item);
        if let Some(position) = state.insert(DanmakuItem::from(&laid)) {
            replayed.push((item.time.as_millis(), position));
        }
    }
    assert_eq!(reported, replayed);
    assert!(reported.len() < comments.len());
}

#[test]
fn comments_without_a_line_are_skipped() {
    let mut provider = provider(
        1000,
        LayoutMode::ShowAll,
        vec![
            comment(1, DanmakuType::Scroll, "a"),
            comment(2, DanmakuType::Scroll, ""),
            comment(3, DanmakuType::Unknown, "dropped"),
            comment(4, DanmakuType::Bottom, "b"),
        ],
    );
    let shaped = shaped_for(&provider, 0);
    assert!(shaped[1].is_none());
    let chunk = provider.get_chunk(shaped, None, 0);
    assert_eq!(chunk.items.len(), 2);
    assert_eq!(chunk.items[0].position, DanmakuPosition::Scroll(0));
    assert_eq!(chunk.items[1].position, DanmakuPosition::Bottom(0));
    // Lines that were not handed in count as lines that shaping did not give.
    let mut short = provider_with_two();
    let chunk = short.get_chunk(vec![shape("a")], None, 0);
    assert_eq!(chunk.items.len(), 1);
}

fn provider_with_two() -> DanmakuTimeChunkProvider<VecDanmakuSource> {
    provider(
        1000,
        LayoutMode::ShowAll,
        vec![comment(1, DanmakuType::Scroll, "a"), comment(2, DanmakuType::Scroll, "b")],
    )
}

#[test]
fn last_chunk_of_the_timeline_holds_the_last_timestamp() {
    let mut provider = provider(
        0x8000_0000,
        LayoutMode::ShowAll,
        vec![
            comment(0x7FFF_FFFF, DanmakuType::Scroll, "a"),
            comment(0x8000_0000, DanmakuType::Scroll, "b"),
            comment(u32::MAX, DanmakuType::Scroll, "c"),
        ],
    );
    assert_eq!(provider.chunk_comments(0).len(), 1);
    assert_eq!(provider.chunk_comments(1).len(), 2);
    assert_eq!(provider.chunk_comments(2).len(), 0);
    let shaped = shaped_for(&provider, 1);
    let chunk = provider.get_chunk(shaped, None, 1);
    assert_eq!(chunk.items.len(), 2);
    assert_eq!(chunk.items[1].item.time, DanmakuTime::from_millis(u32::MAX));
}

#[test]
fn zero_lifetime_gives_empty_chunks() {
    let mut provider = provider(0, LayoutMode::ShowAll, vec![comment(0, DanmakuType::Scroll, "a")]);
    assert!(provider.chunk_comments(0).is_empty());
    assert!(provider.chunk_comments(7).is_empty());
    let chunk = provider.get_chunk(Vec::new(), None, 0);
    assert!(chunk.items.is_empty());
}

#[test]
fn provider_gives_its_parts_back() {
    let provider = provider(8000, LayoutMode::ShowAll, vec![comment(1, DanmakuType::Scroll, "a")]);
    assert_eq!(provider.lifetime(), Duration::from_secs(8));
    let source = provider.source();
    assert_eq!(danmaku_renderer::sources::DanmakuSource::get_all(&source).len(), 1);
}

#[test]
fn test_chunk_generate() {
    let comments = (0..500u32)
        .map(|i| {
            comment(
                i * 211,
                match i % 4 {
                    0 => DanmakuType::Top,
                    1 => DanmakuType::Bottom,
                    _ => DanmakuType::Scroll,
                },
                "danmaku",
            )
        })
        .collect::<Vec<_>>();
    let mut provider = DanmakuTimeChunkProvider::new(
        Duration::from_secs(8),
        (1280, 720),
        32,
        LayoutMode::ShowAll,
        VecDanmakuSource::new(comments),
    );
    let shaped = shaped_for(&provider, 0);
    provider.get_chunk(shaped, None, 0);
    for i in 1..10 {
        let shaped = shaped_for(&provider, i);
        provider.get_chunk(shaped, Some(0), i);
    }
    let shaped = shaped_for(&provider, 10);
    let chunk = provider.get_chunk(shaped, Some(0), 10);
    println!("{:?}", chunk);
    assert_eq!(chunk.index, 10);
    assert_eq!(chunk.base_state_index, 0);
}
