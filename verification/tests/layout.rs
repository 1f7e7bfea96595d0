use danmaku_renderer::danmaku::{DanmakuTime, DanmakuType};
use danmaku_renderer::layout::{DanmakuItem, DanmakuPosition, DanmakuTrackState, LayoutMode};
use std::time::Duration;

fn item(width: u32, millis: u32, kind: DanmakuType) -> DanmakuItem {
    DanmakuItem::new(width, DanmakuTime::from_millis(millis), kind)
}

fn lanes(mode: LayoutMode, screen: (u32, u32), line_height: u32, millis: u64) -> DanmakuTrackState {
    DanmakuTrackState::new(mode, screen, line_height, Duration::from_millis(millis))
}

#[test]
fn single_scroll_goes_to_the_first_lane() {
    let mut state = lanes(LayoutMode::ShowAll, (1280, 720), 32, 8000);
    assert_eq!(
        state.insert(item(40, 1000, DanmakuType::Scroll)),
        Some(DanmakuPosition::Scroll(0))
    );
}

#[test]
fn scroll_is_rejected_while_the_tail_is_outside() {
    // One lane: the second comment comes 100 ms after a comment of the same
    // width, whose tail is still 616 pixels short of having entered.
    let mut state = lanes(LayoutMode::NoOverlap(100), (1280, 32), 32, 8000);
    assert_eq!(
        state.insert(item(640, 0, DanmakuType::Scroll)),
        Some(DanmakuPosition::Scroll(0))
    );
    assert_eq!(state.insert(item(640, 100, DanmakuType::Scroll)), None);
}

#[test]
fn scroll_takes_the_second_lane_when_the_first_is_taken() {
    let mut state = lanes(LayoutMode::NoOverlap(100), (1280, 64), 32, 8000);
    assert_eq!(
        state.insert(item(640, 0, DanmakuType::Scroll)),
        Some(DanmakuPosition::Scroll(0))
    );
    assert_eq!(
        state.insert(item(640, 100, DanmakuType::Scroll)),
        Some(DanmakuPosition::Scroll(1))
    );
}

#[test]
fn scroll_lane_is_free_once_the_tail_has_entered() {
    // speed = (1280 + 640) / 8000 px/ms: the tail has entered after
    // 640 * 8000 / 1920 = 2666.67 ms.
    let mut state = lanes(LayoutMode::NoOverlap(100), (1280, 32), 32, 8000);
    assert!(state.insert(item(640, 0, DanmakuType::Scroll)).is_some());
    assert_eq!(state.insert(item(640, 2666, DanmakuType::Scroll)), None);
    assert_eq!(
        state.insert(item(640, 2667, DanmakuType::Scroll)),
        Some(DanmakuPosition::Scroll(0))
    );
}

#[test]
fn faster_scroll_must_not_catch_up() {
    // The follower is wider, hence faster. Its own tail condition
    // (1280 + 1280) * dt >= 1280 * 8000, dt >= 4000, decides.
    let mut state = lanes(LayoutMode::NoOverlap(100), (1280, 32), 32, 8000);
    assert!(state.insert(item(0, 0, DanmakuType::Scroll)).is_some());
    assert_eq!(state.insert(item(1280, 3999, DanmakuType::Scroll)), None);
    assert_eq!(
        state.insert(item(1280, 4000, DanmakuType::Scroll)),
        Some(DanmakuPosition::Scroll(0))
    );
}

#[test]
fn slower_scroll_only_waits_for_the_tail() {
    let mut state = lanes(LayoutMode::NoOverlap(100), (1000, 32), 32, 1000);
    assert!(state.insert(item(1000, 0, DanmakuType::Scroll)).is_some());
    // Tail of the first has entered at 1000 * 1000 / 2000 = 500 ms.
    assert_eq!(state.insert(item(10, 499, DanmakuType::Scroll)), None);
    assert_eq!(
        state.insert(item(10, 500, DanmakuType::Scroll)),
        Some(DanmakuPosition::Scroll(0))
    );
}

#[test]
fn show_all_rotates_over_full_lanes() {
    let mut state = lanes(LayoutMode::ShowAll, (1280, 64), 32, 8000);
    assert_eq!(
        state.insert(item(640, 0, DanmakuType::Scroll)),
        Some(DanmakuPosition::Scroll(0))
    );
    assert_eq!(
        state.insert(item(640, 1, DanmakuType::Scroll)),
        Some(DanmakuPosition::Scroll(1))
    );
    // Both lanes are blocked: two insertions so far, so lane 2 mod 2.
    assert_eq!(
        state.insert(item(640, 2, DanmakuType::Scroll)),
        Some(DanmakuPosition::Scroll(0))
    );
    assert_eq!(
        state.insert(item(640, 3, DanmakuType::Scroll)),
        Some(DanmakuPosition::Scroll(1))
    );
}

#[test]
fn static_lanes_fill_in_order() {
    let mut state = lanes(LayoutMode::NoOverlap(100), (1280, 128), 32, 8000);
    // Four lanes in all, two of them for anchored comments.
    assert_eq!(state.insert(item(10, 0, DanmakuType::Top)), Some(DanmakuPosition::Top(0)));
    assert_eq!(state.insert(item(10, 1, DanmakuType::Top)), Some(DanmakuPosition::Top(1)));
    assert_eq!(state.insert(item(10, 2, DanmakuType::Top)), None);
    assert_eq!(
        state.insert(item(10, 3, DanmakuType::Bottom)),
        Some(DanmakuPosition::Bottom(0))
    );
}

#[test]
fn static_lane_expires_after_the_lifetime() {
    let mut state = lanes(LayoutMode::NoOverlap(100), (1280, 64), 32, 8000);
    assert_eq!(state.insert(item(10, 0, DanmakuType::Top)), Some(DanmakuPosition::Top(0)));
    // Exactly one lifetime later the slot is still held.
    assert_eq!(state.insert(item(10, 8000, DanmakuType::Top)), None);
    assert_eq!(state.insert(item(10, 8001, DanmakuType::Top)), Some(DanmakuPosition::Top(0)));
}

#[test]
fn static_show_all_rotates() {
    let mut state = lanes(LayoutMode::ShowAll, (1280, 64), 32, 8000);
    assert_eq!(state.insert(item(10, 0, DanmakuType::Bottom)), Some(DanmakuPosition::Bottom(0)));
    assert_eq!(state.insert(item(10, 0, DanmakuType::Bottom)), Some(DanmakuPosition::Bottom(1)));
    assert_eq!(state.insert(item(10, 0, DanmakuType::Bottom)), Some(DanmakuPosition::Bottom(0)));
}

#[test]
fn unknown_kind_is_dropped() {
    let mut state = lanes(LayoutMode::ShowAll, (1280, 720), 32, 8000);
    assert_eq!(state.insert(item(10, 0, DanmakuType::Unknown)), None);
}

#[test]
fn no_lanes_no_place() {
    let mut state = lanes(LayoutMode::ShowAll, (1280, 16), 32, 8000);
    assert_eq!(state.insert(item(10, 0, DanmakuType::Scroll)), None);
    assert_eq!(state.insert(item(10, 0, DanmakuType::Top)), None);
    let mut none = lanes(LayoutMode::NoOverlap(0), (1280, 720), 32, 8000);
    assert_eq!(none.insert(item(10, 0, DanmakuType::Scroll)), None);
}

#[test]
fn lane_counts_follow_the_percentage() {
    // 720 / 32 = 22 lanes; 50 % of them scroll: 11; anchored: min(11, 11).
    let mut state = lanes(LayoutMode::NoOverlap(50), (1280, 720), 32, 8000);
    for lane in 0..11 {
        assert_eq!(
            state.insert(item(640, 0, DanmakuType::Scroll)),
            Some(DanmakuPosition::Scroll(lane))
        );
    }
    assert_eq!(state.insert(item(640, 0, DanmakuType::Scroll)), None);
    for lane in 0..11 {
        assert_eq!(state.insert(item(10, 0, DanmakuType::Top)), Some(DanmakuPosition::Top(lane)));
    }
    assert_eq!(state.insert(item(10, 0, DanmakuType::Top)), None);
}

#[test]
fn anchored_lanes_are_at_most_half() {
    // 22 lanes, all of them scroll; anchored ones: min(22, 11) = 11.
    let mut state = lanes(LayoutMode::NoOverlap(100), (1280, 720), 32, 8000);
    for lane in 0..11 {
        assert_eq!(
            state.insert(item(10, 0, DanmakuType::Bottom)),
            Some(DanmakuPosition::Bottom(lane))
        );
    }
    assert_eq!(state.insert(item(10, 0, DanmakuType::Bottom)), None);
}

#[test]
fn scroll_lanes_of_one_lane_never_overlap_on_screen() {
    // Items placed in lane 0 of a single-lane screen, checked pixel by pixel
    // over their common time on screen.
    let width: i64 = 300;
    let life: i64 = 1000;
    let mut state = lanes(LayoutMode::NoOverlap(100), (300, 10), 10, 1000);
    let mut placed: Vec<(i64, i64)> = Vec::new();
    let widths = [120u32, 40, 300, 10, 0, 75, 220];
    let mut k = 0;
    for t in (0..6000u32).step_by(37) {
        let w = widths[k % widths.len()];
        k += 1;
        if state.insert(item(w, t, DanmakuType::Scroll)).is_some() {
            placed.push((w as i64, t as i64));
        }
    }
    assert!(placed.len() > 3);
    for a in 0..placed.len() {
        for b in (a + 1)..placed.len() {
            let (wa, ta) = placed[a];
            let (wb, tb) = placed[b];
            let mut t = tb;
            while t <= ta + life {
                let right_a = life * width - (width + wa) * (t - ta) + life * wa;
                let left_b = life * width - (width + wb) * (t - tb);
                assert!(wa == 0 || right_a <= left_b);
                t += 1;
            }
        }
    }
}

#[test]
fn static_lane_holds_one_comment_per_lifetime() {
    // Comments every 300 ms on two lanes with a lifetime of 1000 ms: whatever
    // shares a lane lies more than a lifetime apart.
    let mut state = lanes(LayoutMode::NoOverlap(100), (1280, 128), 32, 1000);
    let mut placed: Vec<(usize, u32)> = Vec::new();
    for k in 0..40u32 {
        let time = k * 300;
        if let Some(DanmakuPosition::Top(lane)) = state.insert(item(50, time, DanmakuType::Top)) {
            placed.push((lane, time));
        }
    }
    assert!(placed.len() >= 10 && placed.len() < 40);
    for a in 0..placed.len() {
        for b in (a + 1)..placed.len() {
            if placed[a].0 == placed[b].0 {
                assert!(placed[b].1 > placed[a].1 + 1000);
            }
        }
    }
}
