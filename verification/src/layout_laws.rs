//! What holds of every run of the layout engine.

use crate::danmaku::DanmakuType;
use crate::renderer::wgpu::config::{on_screen, scroll_x};
use crate::layout::{
    blocked, choose_lane, collides, first_clear, first_empty, tail_gap,
    DanmakuItem, DanmakuPosition, LaneGroup, LayoutMode, TrackLayout,
};
use vstd::prelude::*;

verus! {

/// `lifetime` times the x coordinate of the left edge of a scrolling item at
/// time `t`: it enters at the right screen edge and covers
/// `screen_width + width` pixels in `lifetime` milliseconds.
pub open spec fn scroll_left(item: DanmakuItem, screen_width: nat, lifetime: nat, t: int) -> int {
    lifetime * screen_width - (screen_width + item.width) * (t - item.time@)
}

/// `lifetime` times the x coordinate of the right edge at time `t`.
pub open spec fn scroll_right(item: DanmakuItem, screen_width: nat, lifetime: nat, t: int) -> int {
    scroll_left(item, screen_width, lifetime, t) + lifetime * item.width
}

/// Whether the boxes of two scrolling items in one lane share a pixel at time `t`.
pub open spec fn boxes_meet(a: DanmakuItem, b: DanmakuItem, screen_width: nat, lifetime: nat, t: int) -> bool {
    &&& scroll_left(a, screen_width, lifetime, t) < scroll_right(a, screen_width, lifetime, t)
    &&& scroll_left(b, screen_width, lifetime, t) < scroll_right(b, screen_width, lifetime, t)
    &&& scroll_left(a, screen_width, lifetime, t) < scroll_right(b, screen_width, lifetime, t)
    &&& scroll_left(b, screen_width, lifetime, t) < scroll_right(a, screen_width, lifetime, t)
}

/// Items come in the order of their timestamps.
pub open spec fn time_ordered(items: Seq<DanmakuItem>) -> bool {
    forall|a: int, b: int| 0 <= a <= b < items.len() ==> items[a].time@ <= items[b].time@
}

/// No lane of the group holds anything.
pub open spec fn all_empty(group: LaneGroup) -> bool {
    forall|lane: int| 0 <= lane < group.slots.len() ==> group.slots[lane] is None
}

/// At time `t` the box of `a` ends before that of `b` begins, or `a` is a
/// box without extent on a screen without extent.
spec fn far(a: DanmakuItem, b: DanmakuItem, screen_width: nat, lifetime: nat, t: int) -> bool {
    screen_width + a.width == 0 || scroll_right(a, screen_width, lifetime, t) <= scroll_left(
        b,
        screen_width,
        lifetime,
        t,
    )
}

/// `far` for as long as both are on screen.
spec fn far_always(a: DanmakuItem, b: DanmakuItem, screen_width: nat, lifetime: nat) -> bool {
    forall|t: int| b.time@ <= t <= a.time@ + lifetime ==> #[trigger] far(a, b, screen_width, lifetime, t)
}

/// What two items of one lane owe each other, the earlier one first.
spec fn apart(a: DanmakuItem, b: DanmakuItem, kind: DanmakuType, screen_width: nat, lifetime: nat) -> bool {
    match kind {
        DanmakuType::Scroll => far_always(a, b, screen_width, lifetime),
        _ => b.time@ - a.time@ > lifetime,
    }
}

spec fn lanes_of(layout: TrackLayout, kind: DanmakuType) -> LaneGroup {
    match kind {
        DanmakuType::Top => layout.top,
        DanmakuType::Bottom => layout.bottom,
        _ => layout.scroll,
    }
}

spec fn lane_position(kind: DanmakuType, lane: usize) -> DanmakuPosition {
    match kind {
        DanmakuType::Top => DanmakuPosition::Top(lane),
        DanmakuType::Bottom => DanmakuPosition::Bottom(lane),
        _ => DanmakuPosition::Scroll(lane),
    }
}

/// The last of the first `n` items that was given `target`.
spec fn latest_at(positions: Seq<Option<DanmakuPosition>>, target: DanmakuPosition, n: int) -> Option<int>
    decreases n,
{
    if n <= 0 {
        None
    } else if positions[n - 1] == Some(target) {
        Some(n - 1)
    } else {
        latest_at(positions, target, n - 1)
    }
}

proof fn lemma_latest_at(positions: Seq<Option<DanmakuPosition>>, target: DanmakuPosition, n: int)
    requires
        0 <= n <= positions.len(),
    ensures
        match latest_at(positions, target, n) {
            Some(m) => 0 <= m < n && positions[m] == Some(target) && forall|i: int|
                m < i < n ==> positions[i] != Some(target),
            None => forall|i: int| 0 <= i < n ==> positions[i] != Some(target),
        },
    decreases n,
{
    if n > 0 && positions[n - 1] != Some(target) {
        lemma_latest_at(positions, target, n - 1);
    }
}

proof fn lemma_first_empty(slots: Seq<Option<DanmakuItem>>, from: int)
    requires
        0 <= from,
    ensures
        match first_empty(slots, from) {
            Some(lane) => from <= lane < slots.len() && slots[lane] is None,
            None => true,
        },
    decreases slots.len() - from,
{
    if from < slots.len() && slots[from] is Some {
        lemma_first_empty(slots, from + 1);
    }
}

proof fn lemma_first_clear(
    slots: Seq<Option<DanmakuItem>>,
    cur: DanmakuItem,
    screen_width: nat,
    lifetime: nat,
    from: int,
)
    requires
        0 <= from,
    ensures
        match first_clear(slots, cur, screen_width, lifetime, from) {
            Some(lane) => from <= lane < slots.len() && !blocked(
                slots[lane],
                cur,
                screen_width,
                lifetime,
            ),
            None => true,
        },
    decreases slots.len() - from,
{
    if from < slots.len() && blocked(slots[from], cur, screen_width, lifetime) {
        lemma_first_clear(slots, cur, screen_width, lifetime, from + 1);
    }
}

/// Inserting one more item continues the run.
pub proof fn lemma_after_step(start: TrackLayout, items: Seq<DanmakuItem>, n: int)
    requires
        0 <= n < items.len(),
    ensures
        start.after(items.take(n + 1)) == start.after(items.take(n)).insert(items[n]).0,
        start.placements(items)[n] == start.after(items.take(n)).insert(items[n]).1,
{
    assert(items.take(n + 1).drop_last() =~= items.take(n));
    assert(items.take(n + 1).last() == items[n]);
}

/// An insertion changes neither the mode, the lifetime, the screen nor the
/// number of lanes.
proof fn lemma_insert_frame(layout: TrackLayout, item: DanmakuItem)
    ensures
        layout.insert(item).0.mode == layout.mode,
        layout.insert(item).0.lifetime == layout.lifetime,
        layout.insert(item).0.screen_width == layout.screen_width,
        layout.insert(item).0.top.slots.len() == layout.top.slots.len(),
        layout.insert(item).0.bottom.slots.len() == layout.bottom.slots.len(),
        layout.insert(item).0.scroll.slots.len() == layout.scroll.slots.len(),
{
    lemma_first_empty(layout.top.swept(item.time, layout.lifetime).slots, 0);
    lemma_first_empty(layout.bottom.swept(item.time, layout.lifetime).slots, 0);
    lemma_first_clear(
        layout.scroll.swept(item.time, layout.lifetime).slots,
        item,
        layout.screen_width,
        layout.lifetime,
        0,
    );
}

/// Two items that do not collide stay clear of each other while both are on
/// screen.
proof fn lemma_pair_far(prev: DanmakuItem, cur: DanmakuItem, screen_width: nat, lifetime: nat, t: int)
    requires
        !collides(prev, cur, screen_width, lifetime),
        prev.time@ <= cur.time@,
        cur.time@ <= t <= prev.time@ + lifetime,
    ensures
        far(prev, cur, screen_width, lifetime, t),
{
    let w = screen_width as int;
    let l = lifetime as int;
    let wp = prev.width as int;
    let wc = cur.width as int;
    let dt = cur.time@ - prev.time@;
    let s = t - cur.time@;
    let gap = tail_gap(prev, cur, screen_width, lifetime);
    assert(gap == (w + wp) * dt - wp * l);
    if w + wp != 0 {
        if wp >= wc {
            assert((w + wc) * s + l * wp <= (w + wp) * (dt + s)) by (nonlinear_arith)
                requires
                    (w + wp) * dt - wp * l >= 0,
                    wp >= wc,
                    s >= 0,
                    w >= 0,
                    wc >= 0,
            ;
        } else {
            assert(gap * (w + wc) >= w * l * (wc - wp));
            lemma_catch_up_identity(w, wp, wc, dt, l);
            assert((w + wc) * dt - wc * l >= 0) by (nonlinear_arith)
                requires
                    (w + wp) * ((w + wc) * dt - wc * l) >= 0,
                    w + wp > 0,
            ;
            assert((w + wc) * s + l * wp <= (w + wp) * (dt + s)) by (nonlinear_arith)
                requires
                    (w + wc) * dt - wc * l >= 0,
                    0 <= s <= l - dt,
                    wc > wp,
            ;
        }
        assert(scroll_right(prev, screen_width, lifetime, t) == l * w - (w + wp) * (dt + s) + l * wp);
        assert(scroll_left(cur, screen_width, lifetime, t) == l * w - (w + wc) * s);
    }
}

/// The test for a faster follower, rewritten: with `a = w + wp` and
/// `b = w + wc`, `(a * dt - wp * l) * b - w * l * (wc - wp)` is
/// `a * (b * dt - wc * l)`.
proof fn lemma_catch_up_identity(w: int, wp: int, wc: int, dt: int, l: int)
    ensures
        (w + wp) * ((w + wc) * dt - wc * l) == ((w + wp) * dt - wp * l) * (w + wc) - w * l * (wc
            - wp),
{
    let a = w + wp;
    let b = w + wc;
    assert(a * (b * dt - wc * l) == a * (b * dt) - a * (wc * l)) by (nonlinear_arith);
    assert((a * dt - wp * l) * b == (a * dt) * b - (wp * l) * b) by (nonlinear_arith);
    assert(a * (b * dt) == (a * dt) * b) by (nonlinear_arith);
    assert(a * (wc * l) == (w * wc) * l + (wp * wc) * l) by (nonlinear_arith)
        requires
            a == w + wp,
    ;
    assert((wp * l) * b == (wp * w) * l + (wp * wc) * l) by (nonlinear_arith)
        requires
            b == w + wc,
    ;
    assert(w * l * (wc - wp) == (w * wc) * l - (wp * w) * l) by (nonlinear_arith);
}

/// What the run has established for lane `lane` of the group that takes
/// `kind`, once `n` items were inserted.
spec fn lane_settled(start: TrackLayout, items: Seq<DanmakuItem>, kind: DanmakuType, lane: usize, n: int) -> bool {
    let now = start.after(items.take(n));
    let positions = start.placements(items);
    let target = lane_position(kind, lane);
    let latest = latest_at(positions, target, n);
    &&& now.mode == start.mode
    &&& now.lifetime == start.lifetime
    &&& now.screen_width == start.screen_width
    &&& lanes_of(now, kind).slots.len() == lanes_of(start, kind).slots.len()
    &&& match lanes_of(now, kind).slots[lane as int] {
        Some(occupant) => latest is Some && occupant == items[latest.unwrap()],
        None => latest is Some ==> n >= 1 && items[n - 1].time@ - items[latest.unwrap()].time@
            > start.lifetime,
    }
    &&& forall|i: int, j: int|
        0 <= i < j < n && #[trigger] positions[i] == Some(target) && #[trigger] positions[j] == Some(
            target,
        ) ==> apart(items[i], items[j], kind, start.screen_width, start.lifetime)
}

proof fn lemma_lane_settled(start: TrackLayout, items: Seq<DanmakuItem>, kind: DanmakuType, lane: usize, n: int)
    requires
        start.mode is NoOverlap,
        kind != DanmakuType::Unknown,
        all_empty(lanes_of(start, kind)),
        lanes_of(start, kind).slots.len() <= usize::MAX,
        lane < lanes_of(start, kind).slots.len(),
        time_ordered(items),
        0 <= n <= items.len(),
    ensures
        lane_settled(start, items, kind, lane, n),
    decreases n,
{
    let positions = start.placements(items);
    let target = lane_position(kind, lane);
    let width = start.screen_width;
    let life = start.lifetime;
    if n == 0 {
        assert(items.take(0) =~= Seq::<DanmakuItem>::empty());
    } else {
        let m = n - 1;
        lemma_lane_settled(start, items, kind, lane, m);
        lemma_after_step(start, items, m);
        lemma_latest_at(positions, target, m);
        lemma_latest_at(positions, target, n);
        let before = start.after(items.take(m));
        let item = items[m];
        let now = start.after(items.take(n));
        lemma_insert_frame(before, item);
        let group = lanes_of(before, kind);
        let swept = group.swept(item.time, life);
        let latest = latest_at(positions, target, m);
        // What the sweep leaves of the lane's latest item, and what follows when it left nothing.
        assert(swept.slots[lane as int] is None && latest is Some ==> item.time@ - items[latest.unwrap()].time@
            > life) by {
            if swept.slots[lane as int] is None && latest is Some {
                if group.slots[lane as int] is None {
                    assert(items[m - 1].time@ <= item.time@);
                }
            }
        }
        if item.kind == kind {
            let found = if kind == DanmakuType::Scroll {
                first_clear(swept.slots, item, width, life, 0)
            } else {
                first_empty(swept.slots, 0)
            };
            lemma_first_clear(swept.slots, item, width, life, 0);
            lemma_first_empty(swept.slots, 0);
            assert(choose_lane(found, before.mode, swept.slots.len(), swept.count) == found);
            if positions[m] == Some(target) {
                assert(found == Some(lane as int));
                assert(lanes_of(now, kind).slots[lane as int] == Some(item));
                assert forall|i: int, j: int|
                    0 <= i < j < n && #[trigger] positions[i] == Some(target) && #[trigger] positions[j]
                        == Some(target) implies apart(items[i], items[j], kind, width, life) by {
                    if j == m {
                        let last = latest.unwrap();
                        assert(latest is Some);
                        assert(i <= last);
                        assert(items[i].time@ <= items[last].time@);
                        lemma_joins_lane(
                            items[i],
                            items[last],
                            item,
                            swept.slots[lane as int],
                            kind,
                            width,
                            life,
                            i == last,
                        );
                    }
                }
            } else {
                assert(found != Some(lane as int));
                assert(lanes_of(now, kind).slots[lane as int] == swept.slots[lane as int]);
            }
        } else {
            assert(positions[m] != Some(target));
            assert(lanes_of(now, kind) == group);
            if group.slots[lane as int] is None && latest is Some {
                assert(items[m - 1].time@ <= item.time@);
            }
        }
    }
}

/// The step of the induction for the item that joins the lane: `first` is any
/// earlier item of the lane, `last` the latest one, `slot` what the sweep left
/// of it.
proof fn lemma_joins_lane(
    first: DanmakuItem,
    last: DanmakuItem,
    item: DanmakuItem,
    slot: Option<DanmakuItem>,
    kind: DanmakuType,
    screen_width: nat,
    lifetime: nat,
    same: bool,
)
    requires
        kind != DanmakuType::Unknown,
        first.time@ <= last.time@ <= item.time@,
        same ==> first == last,
        !same ==> apart(first, last, kind, screen_width, lifetime),
        slot is None ==> item.time@ - last.time@ > lifetime,
        slot is Some ==> slot == Some(last),
        kind == DanmakuType::Scroll ==> !blocked(slot, item, screen_width, lifetime),
        kind != DanmakuType::Scroll ==> slot is None,
    ensures
        apart(first, item, kind, screen_width, lifetime),
{
    if kind == DanmakuType::Scroll {
        assert forall|t: int| item.time@ <= t <= first.time@ + lifetime implies #[trigger] far(
            first,
            item,
            screen_width,
            lifetime,
            t,
        ) by {
            if slot is Some {
                lemma_pair_far(last, item, screen_width, lifetime, t);
                if !same && screen_width + first.width != 0 {
                    assert(far(first, last, screen_width, lifetime, t));
                    assert(lifetime * last.width >= 0) by (nonlinear_arith)
                        requires
                            lifetime >= 0,
                            last.width >= 0,
                    ;
                    if screen_width + last.width == 0 {
                        // `last` has no extent and never moves: `first` had left when it came.
                        lemma_left_by(first, last, item, screen_width, lifetime, t);
                    }
                }
            }
        }
    }
}

/// On a screen without extent an item that is clear of a later one without
/// extent has left the screen by the time that one arrives.
proof fn lemma_left_by(
    first: DanmakuItem,
    last: DanmakuItem,
    item: DanmakuItem,
    screen_width: nat,
    lifetime: nat,
    t: int,
)
    requires
        screen_width == 0,
        last.width == 0,
        first.width > 0,
        first.time@ <= last.time@ <= item.time@,
        item.time@ <= t <= first.time@ + lifetime,
        far(first, last, screen_width, lifetime, last.time@ as int),
    ensures
        far(first, item, screen_width, lifetime, t),
{
    let w1 = first.width as int;
    let l = lifetime as int;
    let d = last.time@ - first.time@;
    assert(scroll_right(first, screen_width, lifetime, last.time@ as int) == l * 0 - (0 + w1) * d + l
        * w1);
    assert(scroll_left(last, screen_width, lifetime, last.time@ as int) == l * 0 - (0 + 0) * 0) by {
        assert((0 + 0) * (last.time@ - last.time@) == 0) by (nonlinear_arith);
    }
    assert(d >= l) by (nonlinear_arith)
        requires
            l * 0 - (0 + w1) * d + l * w1 <= l * 0 - (0 + 0) * 0,
            w1 > 0,
    ;
    assert(t == item.time@ && t == first.time@ + l);
    assert(scroll_right(first, screen_width, lifetime, t) == l * 0 - (0 + w1) * l + l * w1);
    assert(scroll_left(item, screen_width, lifetime, t) == l * 0 - (0 + item.width) * 0);
    assert(l * 0 - (0 + w1) * l + l * w1 <= l * 0 - (0 + item.width) * 0) by (nonlinear_arith);
}

/// Scrolling comments of one lane keep their order. When the engine rejects
/// what does not fit and is fed in the order of the timestamps, then of any
/// two items that it gave the same scroll lane the earlier one stays ahead:
/// at any time at which both are on screen, from the arrival of the later one
/// to the moment the earlier one has left, the box of the earlier one ends
/// where the box of the later one begins, or before. The one exception is an
/// item without width on a screen without width, which has no box.
pub proof fn lemma_scroll_lane_keeps_order(
    start: TrackLayout,
    items: Seq<DanmakuItem>,
    i: int,
    j: int,
    lane: usize,
    t: int,
)
    requires
        start.mode is NoOverlap,
        all_empty(start.scroll),
        start.scroll.slots.len() <= usize::MAX,
        time_ordered(items),
        0 <= i < j < items.len(),
        start.placements(items)[i] == Some(DanmakuPosition::Scroll(lane)),
        start.placements(items)[j] == Some(DanmakuPosition::Scroll(lane)),
        items[j].time@ <= t <= items[i].time@ + start.lifetime,
    ensures
        start.screen_width + items[i].width == 0 || scroll_right(
            items[i],
            start.screen_width,
            start.lifetime,
            t,
        ) <= scroll_left(items[j], start.screen_width, start.lifetime, t),
{
    lemma_lane_exists(start, items, i);
    lemma_lane_settled(start, items, DanmakuType::Scroll, lane, items.len() as int);
    assert(apart(items[i], items[j], DanmakuType::Scroll, start.screen_width, start.lifetime));
    assert(far(items[i], items[j], start.screen_width, start.lifetime, t));
}

/// Scrolling comments of one lane never overlap. When the engine rejects what
/// does not fit and is fed in the order of the timestamps, any two items that
/// it gave the same scroll lane share no pixel at any time at which both are
/// on screen: from the arrival of the later one to the moment the earlier one
/// has left.
pub proof fn lemma_scroll_lane_never_overlaps(
    start: TrackLayout,
    items: Seq<DanmakuItem>,
    i: int,
    j: int,
    lane: usize,
    t: int,
)
    requires
        start.mode is NoOverlap,
        all_empty(start.scroll),
        start.scroll.slots.len() <= usize::MAX,
        time_ordered(items),
        0 <= i < j < items.len(),
        start.placements(items)[i] == Some(DanmakuPosition::Scroll(lane)),
        start.placements(items)[j] == Some(DanmakuPosition::Scroll(lane)),
        items[j].time@ <= t <= items[i].time@ + start.lifetime,
    ensures
        !boxes_meet(items[i], items[j], start.screen_width, start.lifetime, t),
{
    lemma_scroll_lane_keeps_order(start, items, i, j, lane, t);
    if start.screen_width + items[i].width == 0 {
        assert(start.lifetime * items[i].width == 0) by (nonlinear_arith)
            requires
                items[i].width == 0,
        ;
    }
}

/// The same in whole pixels, as the comments are drawn: at any time at which
/// both are on screen, the earlier item of a scroll lane ends where the later
/// one begins, or before.
pub proof fn lemma_scroll_lane_pixels_keep_order(
    start: TrackLayout,
    items: Seq<DanmakuItem>,
    i: int,
    j: int,
    lane: usize,
    now: nat,
)
    requires
        start.mode is NoOverlap,
        all_empty(start.scroll),
        start.scroll.slots.len() <= usize::MAX,
        time_ordered(items),
        0 <= i < j < items.len(),
        start.placements(items)[i] == Some(DanmakuPosition::Scroll(lane)),
        start.placements(items)[j] == Some(DanmakuPosition::Scroll(lane)),
        start.lifetime > 0,
        on_screen(items[i].time@, now, start.lifetime),
        on_screen(items[j].time@, now, start.lifetime),
    ensures
        start.screen_width + items[i].width == 0 || scroll_x(
            start.screen_width,
            items[i].width as nat,
            items[i].time@,
            now,
            start.lifetime,
        ) + items[i].width <= scroll_x(
            start.screen_width,
            items[j].width as nat,
            items[j].time@,
            now,
            start.lifetime,
        ),
{
    lemma_scroll_lane_keeps_order(start, items, i, j, lane, now as int);
    if start.screen_width + items[i].width != 0 {
        let life = start.lifetime as int;
        let earlier = (start.screen_width + items[i].width) * (now - items[i].time@);
        let later = (start.screen_width + items[j].width) * (now - items[j].time@);
        let width = items[i].width as int;
        assert(life * width == width * life) by (nonlinear_arith);
        assert(later + width * life <= earlier);
        vstd::arithmetic::div_mod::lemma_div_is_ordered(later + width * life, earlier, life);
        vstd::arithmetic::div_mod::lemma_hoist_over_denominator(later, width, life as nat);
    }
}

/// Anchored comments of one lane keep their distance. When the engine rejects
/// what does not fit and is fed in the order of the timestamps, two items that
/// it gave the same top lane, or the same bottom lane, lie more than a
/// lifetime apart.
pub proof fn lemma_static_lane_spacing(
    start: TrackLayout,
    items: Seq<DanmakuItem>,
    i: int,
    j: int,
    position: DanmakuPosition,
)
    requires
        start.mode is NoOverlap,
        all_empty(start.top),
        all_empty(start.bottom),
        start.top.slots.len() <= usize::MAX,
        start.bottom.slots.len() <= usize::MAX,
        time_ordered(items),
        0 <= i < j < items.len(),
        position is Top || position is Bottom,
        start.placements(items)[i] == Some(position),
        start.placements(items)[j] == Some(position),
    ensures
        items[i].time@ + start.lifetime < items[j].time@,
{
    lemma_lane_exists(start, items, i);
    match position {
        DanmakuPosition::Top(lane) => {
            lemma_lane_settled(start, items, DanmakuType::Top, lane, items.len() as int);
            assert(apart(items[i], items[j], DanmakuType::Top, start.screen_width, start.lifetime));
        },
        DanmakuPosition::Bottom(lane) => {
            lemma_lane_settled(start, items, DanmakuType::Bottom, lane, items.len() as int);
            assert(apart(items[i], items[j], DanmakuType::Bottom, start.screen_width, start.lifetime));
        },
        DanmakuPosition::Scroll(_) => {},
    }
}

/// Within one anchored lane timestamps strictly increase: in every run that
/// rejects what does not fit, and in a run that places everything as long as
/// the two items do not bear the same timestamp.
pub proof fn lemma_static_lane_fifo(
    start: TrackLayout,
    items: Seq<DanmakuItem>,
    i: int,
    j: int,
    position: DanmakuPosition,
)
    requires
        all_empty(start.top),
        all_empty(start.bottom),
        start.top.slots.len() <= usize::MAX,
        start.bottom.slots.len() <= usize::MAX,
        time_ordered(items),
        0 <= i < j < items.len(),
        position is Top || position is Bottom,
        start.placements(items)[i] == Some(position),
        start.placements(items)[j] == Some(position),
        start.mode is NoOverlap || items[i].time != items[j].time,
    ensures
        items[i].time@ < items[j].time@,
{
    if start.mode is NoOverlap {
        lemma_static_lane_spacing(start, items, i, j, position);
    }
}

/// A lane that was given to an item is a lane of its group.
proof fn lemma_lane_exists(start: TrackLayout, items: Seq<DanmakuItem>, i: int)
    requires
        0 <= i < items.len(),
    ensures
        match start.placements(items)[i] {
            Some(DanmakuPosition::Scroll(lane)) => start.scroll.slots.len() <= usize::MAX ==> lane
                < start.scroll.slots.len(),
            Some(DanmakuPosition::Top(lane)) => start.top.slots.len() <= usize::MAX ==> lane
                < start.top.slots.len(),
            Some(DanmakuPosition::Bottom(lane)) => start.bottom.slots.len() <= usize::MAX ==> lane
                < start.bottom.slots.len(),
            None => true,
        },
{
    lemma_run_frame(start, items, i);
    let before = start.after(items.take(i));
    let item = items[i];
    let top = before.top.swept(item.time, before.lifetime);
    let bottom = before.bottom.swept(item.time, before.lifetime);
    let scroll = before.scroll.swept(item.time, before.lifetime);
    lemma_first_empty(top.slots, 0);
    lemma_first_empty(bottom.slots, 0);
    lemma_first_clear(scroll.slots, item, before.screen_width, before.lifetime, 0);
    lemma_choose_lane_bound(top, before.mode, first_empty(top.slots, 0));
    lemma_choose_lane_bound(bottom, before.mode, first_empty(bottom.slots, 0));
    lemma_choose_lane_bound(
        scroll,
        before.mode,
        first_clear(scroll.slots, item, before.screen_width, before.lifetime, 0),
    );
}

proof fn lemma_choose_lane_bound(group: LaneGroup, mode: LayoutMode, found: Option<int>)
    requires
        found matches Some(lane) ==> 0 <= lane < group.slots.len(),
    ensures
        choose_lane(found, mode, group.slots.len(), group.count) matches Some(lane) ==> 0 <= lane
            < group.slots.len(),
{
    if group.slots.len() > 0 {
        vstd::arithmetic::div_mod::lemma_mod_pos_bound(group.count as int, group.slots.len() as int);
    }
}

/// A run changes neither the mode, the lifetime, the screen nor the number of
/// lanes.
pub proof fn lemma_run_frame(start: TrackLayout, items: Seq<DanmakuItem>, n: int)
    requires
        0 <= n <= items.len(),
    ensures
        start.after(items.take(n)).mode == start.mode,
        start.after(items.take(n)).lifetime == start.lifetime,
        start.after(items.take(n)).screen_width == start.screen_width,
        start.after(items.take(n)).top.slots.len() == start.top.slots.len(),
        start.after(items.take(n)).bottom.slots.len() == start.bottom.slots.len(),
        start.after(items.take(n)).scroll.slots.len() == start.scroll.slots.len(),
    decreases n,
{
    if n == 0 {
        assert(items.take(0) =~= Seq::<DanmakuItem>::empty());
    } else {
        lemma_run_frame(start, items, n - 1);
        lemma_after_step(start, items, n - 1);
        lemma_insert_frame(start.after(items.take(n - 1)), items[n - 1]);
    }
}

} // verus!
