//! The layout engine: which lane a comment is given.
//!
//! Scrolling comments share a lane only if they never touch; comments anchored
//! to the top or to the bottom hold their lane for one lifetime.

use crate::danmaku::{duration_millis, DanmakuTime, DanmakuType};
use std::time::Duration;
use vstd::prelude::*;

verus! {

/// The lane a comment was given.
#[derive(PartialEq, Eq, Structural, Clone, Copy, Debug)]
pub enum DanmakuPosition {
    Scroll(usize),
    Top(usize),
    Bottom(usize),
}

#[derive(PartialEq, Eq, Structural, Clone, Copy, Debug)]
pub enum LayoutMode {
    /// Reject what does not fit; the number is the percentage of the screen's
    /// lanes that scrolling comments may use.
    NoOverlap(u32),
    /// Place everything, stacking comments when every lane is taken.
    ShowAll,
}

/// What the layout needs to know of a shaped comment.
#[derive(PartialEq, Eq, Structural, Clone, Copy, Debug)]
pub struct DanmakuItem {
    pub width: u32,
    pub time: DanmakuTime,
    pub kind: DanmakuType,
}

impl DanmakuItem {
    pub fn new(width: u32, time: DanmakuTime, kind: DanmakuType) -> (item: Self)
        ensures
            item == (DanmakuItem { width, time, kind }),
    {
        DanmakuItem { width, time, kind }
    }
}

/// An occupant is expired once more than `lifetime` lies between it and `now`.
pub open spec fn expired(item: DanmakuItem, now: DanmakuTime, lifetime: nat) -> bool {
    now@ - item.time@ > lifetime
}

/// The lanes after every expired occupant has been removed.
pub open spec fn sweep(slots: Seq<Option<DanmakuItem>>, now: DanmakuTime, lifetime: nat) -> Seq<
    Option<DanmakuItem>,
> {
    Seq::new(
        slots.len(),
        |i: int|
            match slots[i] {
                Some(item) => if expired(item, now, lifetime) {
                    None
                } else {
                    Some(item)
                },
                None => None,
            },
    )
}

/// `lifetime` times the distance between the right screen edge and the tail of
/// `prev` at the moment `cur` arrives. An item of width `w` moves at
/// `(screen_width + w) / lifetime`, so the distance itself is
/// `speed_prev * (cur.time - prev.time) - prev.width`.
pub open spec fn tail_gap(prev: DanmakuItem, cur: DanmakuItem, screen_width: nat, lifetime: nat) -> int {
    (screen_width + prev.width) * (cur.time@ - prev.time@) - prev.width * lifetime
}

/// Whether `cur` may not share a scroll lane with its latest occupant `prev`:
/// either the tail of `prev` has not entered the screen yet, or `cur` is faster
/// and would reach that tail before `prev` has left. The second test compares
/// the catch-up time `gap / (speed_cur - speed_prev)` with the traversal time
/// `screen_width / speed_cur`, both cleared of their denominators.
pub open spec fn collides(prev: DanmakuItem, cur: DanmakuItem, screen_width: nat, lifetime: nat) -> bool {
    let gap = tail_gap(prev, cur, screen_width, lifetime);
    gap < 0 || (prev.width < cur.width && gap * (screen_width + cur.width) < screen_width
        * lifetime * (cur.width - prev.width))
}

/// A scroll lane is blocked for `cur` when it has an occupant that collides with it.
pub open spec fn blocked(slot: Option<DanmakuItem>, cur: DanmakuItem, screen_width: nat, lifetime: nat) -> bool {
    match slot {
        Some(prev) => collides(prev, cur, screen_width, lifetime),
        None => false,
    }
}

/// The first empty lane at or after `from`.
pub open spec fn first_empty(slots: Seq<Option<DanmakuItem>>, from: int) -> Option<int>
    decreases slots.len() - from,
{
    if from < 0 || from >= slots.len() {
        None
    } else if slots[from] is None {
        Some(from)
    } else {
        first_empty(slots, from + 1)
    }
}

/// The first lane at or after `from` that is not blocked for `cur`.
pub open spec fn first_clear(
    slots: Seq<Option<DanmakuItem>>,
    cur: DanmakuItem,
    screen_width: nat,
    lifetime: nat,
    from: int,
) -> Option<int>
    decreases slots.len() - from,
{
    if from < 0 || from >= slots.len() {
        None
    } else if !blocked(slots[from], cur, screen_width, lifetime) {
        Some(from)
    } else {
        first_clear(slots, cur, screen_width, lifetime, from + 1)
    }
}

/// The lane an item goes to, given the first lane that suits it (if any): without
/// lanes nothing is placed; `NoOverlap` takes the suitable lane or none;
/// `ShowAll` falls back on the rotation counter.
pub open spec fn choose_lane(found: Option<int>, mode: LayoutMode, lanes: nat, count: nat) -> Option<int> {
    if lanes == 0 {
        None
    } else {
        match mode {
            LayoutMode::NoOverlap(_) => found,
            LayoutMode::ShowAll => match found {
                Some(lane) => Some(lane),
                None => Some((count % lanes) as int),
            },
        }
    }
}

/// One group of lanes: what each lane holds, and how many items were placed in
/// the group so far.
pub ghost struct LaneGroup {
    pub slots: Seq<Option<DanmakuItem>>,
    pub count: nat,
}

impl LaneGroup {
    pub open spec fn empty(lanes: nat) -> LaneGroup {
        LaneGroup { slots: Seq::new(lanes, |i: int| None), count: 0 }
    }

    pub open spec fn swept(self, now: DanmakuTime, lifetime: nat) -> LaneGroup {
        LaneGroup { slots: sweep(self.slots, now, lifetime), count: self.count }
    }

    pub open spec fn place(self, lane: int, item: DanmakuItem) -> LaneGroup {
        LaneGroup { slots: self.slots.update(lane, Some(item)), count: self.count + 1 }
    }
}

/// Lanes on a screen `screen_height` high with lines `line_height` high.
pub open spec fn total_lanes(screen_height: u32, line_height: u32) -> nat {
    (screen_height as nat) / (line_height as nat)
}

/// Lanes for scrolling comments.
pub open spec fn scroll_lanes(mode: LayoutMode, screen_height: u32, line_height: u32) -> nat {
    let total = total_lanes(screen_height, line_height);
    match mode {
        LayoutMode::NoOverlap(percent) => total * (percent as nat) / 100,
        LayoutMode::ShowAll => total,
    }
}

/// Lanes for comments anchored to the top, and as many for the bottom.
pub open spec fn static_lanes(mode: LayoutMode, screen_height: u32, line_height: u32) -> nat {
    let total = total_lanes(screen_height, line_height);
    match mode {
        LayoutMode::NoOverlap(_) => {
            let scroll = scroll_lanes(mode, screen_height, line_height);
            if scroll <= total / 2 {
                scroll
            } else {
                total / 2
            }
        },
        LayoutMode::ShowAll => total,
    }
}

/// The mathematical state of the layout engine.
pub ghost struct TrackLayout {
    pub mode: LayoutMode,
    pub lifetime: nat,
    pub screen_width: nat,
    pub top: LaneGroup,
    pub bottom: LaneGroup,
    pub scroll: LaneGroup,
}

impl TrackLayout {
    /// The state before anything was placed.
    pub open spec fn fresh(mode: LayoutMode, screen_size: (u32, u32), line_height: u32, lifetime: nat) -> TrackLayout {
        TrackLayout {
            mode,
            lifetime,
            screen_width: screen_size.0 as nat,
            top: LaneGroup::empty(static_lanes(mode, screen_size.1, line_height)),
            bottom: LaneGroup::empty(static_lanes(mode, screen_size.1, line_height)),
            scroll: LaneGroup::empty(scroll_lanes(mode, screen_size.1, line_height)),
        }
    }

    /// Places an anchored item in `group`.
    pub open spec fn insert_static(self, group: LaneGroup, item: DanmakuItem) -> (LaneGroup, Option<int>) {
        let swept = group.swept(item.time, self.lifetime);
        let lane = choose_lane(first_empty(swept.slots, 0), self.mode, swept.slots.len(), swept.count);
        match lane {
            Some(lane) => (swept.place(lane, item), Some(lane)),
            None => (swept, None),
        }
    }

    /// Places a scrolling item.
    pub open spec fn insert_scroll(self, item: DanmakuItem) -> (LaneGroup, Option<int>) {
        let swept = self.scroll.swept(item.time, self.lifetime);
        let lane = choose_lane(
            first_clear(swept.slots, item, self.screen_width, self.lifetime, 0),
            self.mode,
            swept.slots.len(),
            swept.count,
        );
        match lane {
            Some(lane) => (swept.place(lane, item), Some(lane)),
            None => (swept, None),
        }
    }

    /// One insertion: the next state and the lane given, if any. Before the
    /// lane is looked for, the group that the item belongs to drops its expired
    /// occupants; that happens whether or not the item is placed.
    pub open spec fn insert(self, item: DanmakuItem) -> (TrackLayout, Option<DanmakuPosition>) {
        match item.kind {
            DanmakuType::Scroll => {
                let (scroll, lane) = self.insert_scroll(item);
                (
                    TrackLayout { scroll, ..self },
                    match lane {
                        Some(lane) => Some(DanmakuPosition::Scroll(lane as usize)),
                        None => None,
                    },
                )
            },
            DanmakuType::Top => {
                let (top, lane) = self.insert_static(self.top, item);
                (
                    TrackLayout { top, ..self },
                    match lane {
                        Some(lane) => Some(DanmakuPosition::Top(lane as usize)),
                        None => None,
                    },
                )
            },
            DanmakuType::Bottom => {
                let (bottom, lane) = self.insert_static(self.bottom, item);
                (
                    TrackLayout { bottom, ..self },
                    match lane {
                        Some(lane) => Some(DanmakuPosition::Bottom(lane as usize)),
                        None => None,
                    },
                )
            },
            DanmakuType::Unknown => (self, None),
        }
    }

    /// The state after inserting `items` in order.
    pub open spec fn after(self, items: Seq<DanmakuItem>) -> TrackLayout
        decreases items.len(),
    {
        if items.len() == 0 {
            self
        } else {
            self.after(items.drop_last()).insert(items.last()).0
        }
    }

    /// The lane given to each of `items`, inserted in order.
    pub open spec fn placements(self, items: Seq<DanmakuItem>) -> Seq<Option<DanmakuPosition>> {
        Seq::new(items.len(), |i: int| self.after(items.take(i)).insert(items[i]).1)
    }
}

struct StaticDanmakuTrackState {
    tracks: Vec<Option<DanmakuItem>>,
    lifetime: u128,
    /// The number of insertions so far, reduced modulo the number of lanes.
    index: usize,
    inserted: Ghost<nat>,
}

impl StaticDanmakuTrackState {
    spec fn wf(&self) -> bool {
        self.tracks@.len() > 0 ==> self.index == self.inserted@ % self.tracks@.len()
    }

    spec fn group(&self) -> LaneGroup {
        LaneGroup { slots: self.tracks@, count: self.inserted@ }
    }

    fn new(tracks: usize, lifetime: u128) -> (state: Self)
        ensures
            state.wf(),
            state.group() == LaneGroup::empty(tracks as nat),
            state.lifetime == lifetime,
    {
        let mut lanes: Vec<Option<DanmakuItem>> = Vec::new();
        let mut i: usize = 0;
        while i < tracks
            invariant
                i <= tracks,
                lanes@.len() == i,
                forall|j: int| 0 <= j < i ==> lanes@[j] is None,
            decreases tracks - i,
        {
            lanes.push(None);
            i += 1;
        }
        assert(lanes@ =~= LaneGroup::empty(tracks as nat).slots);
        assert(tracks > 0 ==> 0nat % (tracks as nat) == 0) by {
            if tracks > 0 {
                vstd::arithmetic::div_mod::lemma_small_mod(0, tracks as nat);
            }
        }
        StaticDanmakuTrackState { tracks: lanes, lifetime, index: 0, inserted: Ghost(0) }
    }

    fn clear_expired(&mut self, now_time: DanmakuTime)
        requires
            old(self).wf(),
        ensures
            final(self).wf(),
            final(self).group() == old(self).group().swept(now_time, old(self).lifetime as nat),
            final(self).lifetime == old(self).lifetime,
    {
        let mut i: usize = 0;
        while i < self.tracks.len()
            invariant
                i <= self.tracks@.len(),
                self.tracks@.len() == old(self).tracks@.len(),
                self.lifetime == old(self).lifetime,
                self.index == old(self).index,
                self.inserted@ == old(self).inserted@,
                forall|j: int|
                    0 <= j < i ==> self.tracks@[j] == sweep(
                        old(self).tracks@,
                        now_time,
                        self.lifetime as nat,
                    )[j],
                forall|j: int| i <= j < self.tracks@.len() ==> self.tracks@[j] == old(self).tracks@[j],
            decreases self.tracks@.len() - i,
        {
            if let Some(item) = self.tracks[i] {
                if is_expired(item, now_time, self.lifetime) {
                    self.tracks.set(i, None);
                }
            }
            i += 1;
        }
        assert(self.tracks@ =~= sweep(old(self).tracks@, now_time, self.lifetime as nat));
    }

    fn find_empty_track(&self) -> (track: Option<usize>)
        ensures
            match track {
                Some(lane) => first_empty(self.tracks@, 0) == Some(lane as int) && lane
                    < self.tracks@.len(),
                None => first_empty(self.tracks@, 0) is None,
            },
    {
        let mut i: usize = 0;
        while i < self.tracks.len()
            invariant
                i <= self.tracks@.len(),
                first_empty(self.tracks@, 0) == first_empty(self.tracks@, i as int),
            decreases self.tracks@.len() - i,
        {
            if self.tracks[i].is_none() {
                return Some(i);
            }
            i += 1;
        }
        None
    }

    fn find_track(&self, mode: LayoutMode) -> (track: Option<usize>)
        requires
            self.wf(),
        ensures
            match track {
                Some(lane) => choose_lane(
                    first_empty(self.tracks@, 0),
                    mode,
                    self.tracks@.len(),
                    self.inserted@,
                ) == Some(lane as int) && lane < self.tracks@.len(),
                None => choose_lane(
                    first_empty(self.tracks@, 0),
                    mode,
                    self.tracks@.len(),
                    self.inserted@,
                ) is None,
            },
    {
        if self.tracks.len() == 0 {
            return None;
        }
        let track = self.find_empty_track();
        match mode {
            LayoutMode::NoOverlap(_) => track,
            LayoutMode::ShowAll => match track {
                Some(lane) => Some(lane),
                None => Some(self.index),
            },
        }
    }

    fn insert(&mut self, track: usize, item: DanmakuItem)
        requires
            old(self).wf(),
            track < old(self).tracks@.len(),
        ensures
            final(self).wf(),
            final(self).group() == old(self).group().place(track as int, item),
            final(self).lifetime == old(self).lifetime,
    {
        proof {
            lemma_rotation_step(self.inserted@, self.tracks@.len());
        }
        let lanes: usize = self.tracks.len();
        self.index = if self.index + 1 == lanes {
            0
        } else {
            self.index + 1
        };
        self.inserted = Ghost((self.inserted@ + 1) as nat);
        self.tracks.set(track, Some(item));
    }
}

/// Stepping a counter that is kept reduced modulo `lanes`.
proof fn lemma_rotation_step(count: nat, lanes: nat)
    requires
        lanes > 0,
    ensures
        (count + 1) % lanes == if count % lanes + 1 == lanes {
            0
        } else {
            count % lanes + 1
        },
        count % lanes < lanes,
{
    let q = count as int / lanes as int;
    let r = count as int % lanes as int;
    vstd::arithmetic::div_mod::lemma_fundamental_div_mod(count as int, lanes as int);
    vstd::arithmetic::div_mod::lemma_mod_pos_bound(count as int, lanes as int);
    if r + 1 == lanes {
        assert(count + 1 == (q + 1) * lanes + 0) by (nonlinear_arith)
            requires
                count == lanes * q + r,
                r + 1 == lanes,
        ;
        vstd::arithmetic::div_mod::lemma_fundamental_div_mod_converse(
            count as int + 1,
            lanes as int,
            q + 1,
            0,
        );
    } else {
        assert(count + 1 == q * lanes + (r + 1)) by (nonlinear_arith)
            requires
                count == lanes * q + r,
        ;
        vstd::arithmetic::div_mod::lemma_fundamental_div_mod_converse(
            count as int + 1,
            lanes as int,
            q,
            r + 1,
        );
    }
}

/// Tells whether `item` is expired at `now_time`.
fn is_expired(item: DanmakuItem, now_time: DanmakuTime, lifetime: u128) -> (gone: bool)
    ensures
        gone == expired(item, now_time, lifetime as nat),
{
    let now: u32 = now_time.as_millis();
    let then: u32 = item.time.as_millis();
    now > then && ((now - then) as u128) > lifetime
}

struct ScrollDanmakuTrack {
    latest_danmaku_item: Option<DanmakuItem>,
}

struct ScrollDanmakuTrackState {
    tracks: Vec<ScrollDanmakuTrack>,
    lifetime: u128,
    screen_width: u32,
    /// The number of insertions so far, reduced modulo the number of lanes.
    index: usize,
    inserted: Ghost<nat>,
}

impl ScrollDanmakuTrack {
    fn new() -> (track: Self)
        ensures
            track.latest_danmaku_item is None,
    {
        ScrollDanmakuTrack { latest_danmaku_item: None }
    }

    fn clear_expired(&mut self, lifetime: u128, now_time: DanmakuTime)
        ensures
            final(self).latest_danmaku_item == match old(self).latest_danmaku_item {
                Some(item) => if expired(item, now_time, lifetime as nat) {
                    None
                } else {
                    Some(item)
                },
                None => None,
            },
    {
        if let Some(latest_danmaku_item) = self.latest_danmaku_item {
            if is_expired(latest_danmaku_item, now_time, lifetime) {
                self.latest_danmaku_item = None
            }
        }
    }

    /// Decides in exact integer arithmetic whether `item` collides with the
    /// lane's latest occupant.
    fn will_overlap(&self, screen_width: u32, lifetime: u128, item: &DanmakuItem) -> (overlap: bool)
        ensures
            overlap == blocked(self.latest_danmaku_item, *item, screen_width as nat, lifetime as nat),
    {
        let last_item = match self.latest_danmaku_item {
            Some(last_item) => last_item,
            None => {
                return false;
            },
        };
        let screen: u128 = screen_width as u128;
        let width_last: u128 = last_item.width as u128;
        let width_current: u128 = item.width as u128;
        let reach_per_milli: u128 = screen + width_last;
        let time_last: u32 = last_item.time.as_millis();
        let time_current: u32 = item.time.as_millis();
        let ghost gap = tail_gap(last_item, *item, screen_width as nat, lifetime as nat);
        let ghost elapsed = time_current as int - time_last as int;
        if time_current < time_last {
            proof {
                lemma_early_arrival(reach_per_milli as int, elapsed, width_last as int, lifetime as int);
                if reach_per_milli == 0 {
                    assert(gap * (screen + width_current) == 0 && screen * lifetime * (width_current
                        - width_last) == 0) by (nonlinear_arith)
                        requires
                            gap == 0,
                            screen == 0,
                    ;
                }
            }
            return reach_per_milli != 0;
        }
        let passed: u128 = (time_current - time_last) as u128;
        assert(reach_per_milli * passed <= 0x2_0000_0000 * 0x1_0000_0000) by (nonlinear_arith)
            requires
                reach_per_milli <= 0x2_0000_0000,
                passed <= 0x1_0000_0000,
        ;
        let reach: u128 = reach_per_milli * passed;
        let tail: u128 = match width_last.checked_mul(lifetime) {
            Some(tail) => tail,
            None => {
                return true;
            },
        };
        if reach < tail {
            return true;
        }
        if width_last >= width_current {
            return false;
        }
        let distance: u128 = reach - tail;
        assert(distance * (screen + width_current) <= 0x2_0000_0000_0000_0000 * 0x2_0000_0000)
            by (nonlinear_arith)
            requires
                distance <= 0x2_0000_0000_0000_0000,
                screen + width_current <= 0x2_0000_0000,
        ;
        let catch_up: u128 = distance * (screen + width_current);
        assert(screen * (width_current - width_last) <= 0x1_0000_0000 * 0x1_0000_0000)
            by (nonlinear_arith)
            requires
                screen <= 0x1_0000_0000,
                width_current - width_last <= 0x1_0000_0000,
        ;
        let lead: u128 = screen * (width_current - width_last);
        assert(screen * lifetime * (width_current - width_last) == lead * lifetime)
            by (nonlinear_arith)
            requires
                lead == screen * (width_current - width_last),
        ;
        match lead.checked_mul(lifetime) {
            Some(traverse) => catch_up < traverse,
            None => true,
        }
    }

    fn insert(&mut self, item: DanmakuItem)
        ensures
            final(self).latest_danmaku_item == Some(item),
    {
        self.latest_danmaku_item = Some(item);
    }
}

/// An item that arrives before the lane's occupant did is behind its tail,
/// unless nothing moves at all.
proof fn lemma_early_arrival(reach_per_milli: int, elapsed: int, width: int, lifetime: int)
    requires
        reach_per_milli >= 0,
        elapsed < 0,
        0 <= width <= reach_per_milli,
        lifetime >= 0,
    ensures
        reach_per_milli > 0 ==> reach_per_milli * elapsed - width * lifetime < 0,
        reach_per_milli == 0 ==> reach_per_milli * elapsed - width * lifetime == 0,
{
    assert(reach_per_milli > 0 ==> reach_per_milli * elapsed < 0) by (nonlinear_arith)
        requires
            elapsed < 0,
    ;
    assert(width * lifetime >= 0) by (nonlinear_arith)
        requires
            width >= 0,
            lifetime >= 0,
    ;
    assert(reach_per_milli == 0 ==> reach_per_milli * elapsed == 0 && width * lifetime == 0)
        by (nonlinear_arith)
        requires
            0 <= width <= reach_per_milli,
    ;
}

impl ScrollDanmakuTrackState {
    spec fn wf(&self) -> bool {
        self.tracks@.len() > 0 ==> self.index == self.inserted@ % self.tracks@.len()
    }

    spec fn slots(&self) -> Seq<Option<DanmakuItem>> {
        Seq::new(self.tracks@.len(), |i: int| self.tracks@[i].latest_danmaku_item)
    }

    spec fn group(&self) -> LaneGroup {
        LaneGroup { slots: self.slots(), count: self.inserted@ }
    }

    fn new(tracks: usize, screen_width: u32, lifetime: u128) -> (state: Self)
        ensures
            state.wf(),
            state.group() == LaneGroup::empty(tracks as nat),
            state.lifetime == lifetime,
            state.screen_width == screen_width,
    {
        let mut lanes: Vec<ScrollDanmakuTrack> = Vec::new();
        let mut i: usize = 0;
        while i < tracks
            invariant
                i <= tracks,
                lanes@.len() == i,
                forall|j: int| 0 <= j < i ==> lanes@[j].latest_danmaku_item is None,
            decreases tracks - i,
        {
            lanes.push(ScrollDanmakuTrack::new());
            i += 1;
        }
        assert(tracks > 0 ==> 0nat % (tracks as nat) == 0) by {
            if tracks > 0 {
                vstd::arithmetic::div_mod::lemma_small_mod(0, tracks as nat);
            }
        }
        let state = ScrollDanmakuTrackState {
            tracks: lanes,
            screen_width,
            lifetime,
            index: 0,
            inserted: Ghost(0),
        };
        assert(state.slots() =~= LaneGroup::empty(tracks as nat).slots);
        state
    }

    fn clear_expired(&mut self, now_time: DanmakuTime)
        requires
            old(self).wf(),
        ensures
            final(self).wf(),
            final(self).group() == old(self).group().swept(now_time, old(self).lifetime as nat),
            final(self).lifetime == old(self).lifetime,
            final(self).screen_width == old(self).screen_width,
    {
        let mut i: usize = 0;
        while i < self.tracks.len()
            invariant
                i <= self.tracks@.len(),
                self.tracks@.len() == old(self).tracks@.len(),
                self.lifetime == old(self).lifetime,
                self.screen_width == old(self).screen_width,
                self.index == old(self).index,
                self.inserted@ == old(self).inserted@,
                forall|j: int|
                    0 <= j < i ==> self.tracks@[j].latest_danmaku_item == sweep(
                        old(self).slots(),
                        now_time,
                        self.lifetime as nat,
                    )[j],
                forall|j: int| i <= j < self.tracks@.len() ==> self.tracks@[j] == old(self).tracks@[j],
            decreases self.tracks@.len() - i,
        {
            let mut track = ScrollDanmakuTrack {
                latest_danmaku_item: self.tracks[i].latest_danmaku_item,
            };
            track.clear_expired(self.lifetime, now_time);
            self.tracks.set(i, track);
            i += 1;
        }
        assert(self.slots() =~= sweep(old(self).slots(), now_time, self.lifetime as nat));
    }

    fn find_empty_track(&self, item: &DanmakuItem) -> (track: Option<usize>)
        ensures
            match track {
                Some(lane) => first_clear(
                    self.slots(),
                    *item,
                    self.screen_width as nat,
                    self.lifetime as nat,
                    0,
                ) == Some(lane as int) && lane < self.tracks@.len(),
                None => first_clear(
                    self.slots(),
                    *item,
                    self.screen_width as nat,
                    self.lifetime as nat,
                    0,
                ) is None,
            },
    {
        let mut i: usize = 0;
        while i < self.tracks.len()
            invariant
                i <= self.tracks@.len(),
                first_clear(self.slots(), *item, self.screen_width as nat, self.lifetime as nat, 0)
                    == first_clear(
                    self.slots(),
                    *item,
                    self.screen_width as nat,
                    self.lifetime as nat,
                    i as int,
                ),
            decreases self.tracks@.len() - i,
        {
            if !self.tracks[i].will_overlap(self.screen_width, self.lifetime, item) {
                return Some(i);
            }
            i += 1;
        }
        None
    }

    fn find_track(&self, item: &DanmakuItem, mode: LayoutMode) -> (track: Option<usize>)
        requires
            self.wf(),
        ensures
            match track {
                Some(lane) => choose_lane(
                    first_clear(
                        self.slots(),
                        *item,
                        self.screen_width as nat,
                        self.lifetime as nat,
                        0,
                    ),
                    mode,
                    self.tracks@.len(),
                    self.inserted@,
                ) == Some(lane as int) && lane < self.tracks@.len(),
                None => choose_lane(
                    first_clear(
                        self.slots(),
                        *item,
                        self.screen_width as nat,
                        self.lifetime as nat,
                        0,
                    ),
                    mode,
                    self.tracks@.len(),
                    self.inserted@,
                ) is None,
            },
    {
        if self.tracks.len() == 0 {
            return None;
        }
        let track = self.find_empty_track(item);
        match mode {
            LayoutMode::NoOverlap(_) => track,
            LayoutMode::ShowAll => match track {
                Some(lane) => Some(lane),
                None => Some(self.index),
            },
        }
    }

    fn insert(&mut self, track: usize, item: DanmakuItem)
        requires
            old(self).wf(),
            track < old(self).tracks@.len(),
        ensures
            final(self).wf(),
            final(self).group() == old(self).group().place(track as int, item),
            final(self).lifetime == old(self).lifetime,
            final(self).screen_width == old(self).screen_width,
    {
        proof {
            lemma_rotation_step(self.inserted@, self.tracks@.len());
        }
        let lanes: usize = self.tracks.len();
        self.index = if self.index + 1 == lanes {
            0
        } else {
            self.index + 1
        };
        self.inserted = Ghost((self.inserted@ + 1) as nat);
        let mut lane = ScrollDanmakuTrack::new();
        lane.insert(item);
        self.tracks.set(track, lane);
        assert(self.slots() =~= old(self).slots().update(track as int, Some(item)));
    }
}

/// The layout engine: lanes for scrolling comments and for comments anchored to
/// the top and to the bottom of the screen.
pub struct DanmakuTrackState {
    mode: LayoutMode,
    top: StaticDanmakuTrackState,
    bottom: StaticDanmakuTrackState,
    scroll: ScrollDanmakuTrackState,
}

impl View for DanmakuTrackState {
    type V = TrackLayout;

    closed spec fn view(&self) -> TrackLayout {
        TrackLayout {
            mode: self.mode,
            lifetime: self.scroll.lifetime as nat,
            screen_width: self.scroll.screen_width as nat,
            top: self.top.group(),
            bottom: self.bottom.group(),
            scroll: self.scroll.group(),
        }
    }
}

impl DanmakuTrackState {
    /// The rotation counters are kept reduced modulo the number of lanes, and
    /// the three groups agree on the lifetime.
    pub closed spec fn wf(&self) -> bool {
        &&& self.top.wf()
        &&& self.bottom.wf()
        &&& self.scroll.wf()
        &&& self.top.lifetime == self.scroll.lifetime
        &&& self.bottom.lifetime == self.scroll.lifetime
    }

    /// An empty layout for a screen of `screen_size` (width, height) pixels.
    pub fn new(mode: LayoutMode, screen_size: (u32, u32), line_height: u32, lifetime: Duration) -> (state: Self)
        requires
            line_height > 0,
            scroll_lanes(mode, screen_size.1, line_height) <= usize::MAX,
        ensures
            state.wf(),
            state@ == TrackLayout::fresh(mode, screen_size, line_height, duration_millis(lifetime)),
    {
        let total_tracks: u32 = screen_size.1 / line_height;
        let (scroll_tracks, static_tracks) = match mode {
            LayoutMode::NoOverlap(percent) => {
                assert(total_tracks as u64 * percent as u64 <= 0xFFFF_FFFF * 0xFFFF_FFFF)
                    by (nonlinear_arith)
                    requires
                        total_tracks <= 0xFFFF_FFFF,
                        percent <= 0xFFFF_FFFF,
                ;
                let tracks: u64 = total_tracks as u64 * percent as u64 / 100;
                let half: u64 = (total_tracks / 2) as u64;
                (
                    tracks as usize,
                    if tracks <= half {
                        tracks as usize
                    } else {
                        half as usize
                    },
                )
            },
            LayoutMode::ShowAll => (total_tracks as usize, total_tracks as usize),
        };
        let millis: u128 = lifetime.as_millis();
        DanmakuTrackState {
            mode,
            top: StaticDanmakuTrackState::new(static_tracks, millis),
            bottom: StaticDanmakuTrackState::new(static_tracks, millis),
            scroll: ScrollDanmakuTrackState::new(scroll_tracks, screen_size.0, millis),
        }
    }

    /// Gives `item` a lane, or rejects it.
    pub fn insert(&mut self, item: DanmakuItem) -> (position: Option<DanmakuPosition>)
        requires
            old(self).wf(),
        ensures
            final(self).wf(),
            (final(self)@, position) == old(self)@.insert(item),
    {
        match item.kind {
            DanmakuType::Scroll => {
                self.scroll.clear_expired(item.time);
                if let Some(track) = self.scroll.find_track(&item, self.mode) {
                    self.scroll.insert(track, item);
                    Some(DanmakuPosition::Scroll(track))
                } else {
                    None
                }
            },
            DanmakuType::Top => {
                self.top.clear_expired(item.time);
                if let Some(track) = self.top.find_track(self.mode) {
                    self.top.insert(track, item);
                    Some(DanmakuPosition::Top(track))
                } else {
                    None
                }
            },
            DanmakuType::Bottom => {
                self.bottom.clear_expired(item.time);
                if let Some(track) = self.bottom.find_track(self.mode) {
                    self.bottom.insert(track, item);
                    Some(DanmakuPosition::Bottom(track))
                } else {
                    None
                }
            },
            DanmakuType::Unknown => None,
        }
    }
}

} // verus!
