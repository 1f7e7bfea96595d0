//! The screen as the renderer knows it, and where a comment stands on it at a given time.

use super::timestamp::TimestampUniform;
use crate::danmaku::{duration_millis, DanmakuTime};
use crate::layout::DanmakuPosition;
use std::time::Duration;
use vstd::prelude::*;

verus! {

/// What the vertex shader knows of the screen: its size, the height of a
/// lane, and the lifetime of a comment in milliseconds.
#[derive(PartialEq, Eq, Structural, Clone, Copy, Debug)]
pub struct ConfigUniform {
    pub screen_width: u32,
    pub screen_height: u32,
    pub line_height: u32,
    pub lifetime: u32,
}

/// Byte `place` of a word, counted from the low end.
pub open spec fn byte_of(word: u32, place: int) -> u8 {
    let scale: int = if place == 0 {
        0x1
    } else if place == 1 {
        0x100
    } else if place == 2 {
        0x1_0000
    } else {
        0x100_0000
    };
    ((word as int / scale) % 0x100) as u8
}

/// The bytes of 32-bit words, each word written low byte first.
pub open spec fn low_first(words: Seq<u32>) -> Seq<u8> {
    Seq::new(4 * words.len(), |i: int| byte_of(words[i / 4], i % 4))
}

/// The bytes of 32-bit words, each word written high byte first.
pub open spec fn high_first(words: Seq<u32>) -> Seq<u8> {
    Seq::new(4 * words.len(), |i: int| byte_of(words[i / 4], 3 - i % 4))
}

/// The bytes of 32-bit words in the byte order of the machine, which is one
/// of the two.
pub open spec fn machine_bytes(words: Seq<u32>, bytes: Seq<u8>) -> bool {
    bytes == low_first(words) || bytes == high_first(words)
}

/// `bytemuck::cast_slice` from 32-bit words to bytes: four bytes for each word,
/// in the byte order of the machine.
#[verifier::external_body]
pub(crate) fn words_as_bytes(words: &[u32]) -> (bytes: Vec<u8>)
    ensures
        bytes@.len() == 4 * words@.len(),
        machine_bytes(words@, bytes@),
{
    bytemuck::cast_slice::<u32, u8>(words).to_vec()
}

/// Whether a comment that appeared at `time` is on screen at `now`: from the
/// moment it appears until one lifetime later, that moment excluded.
pub open spec fn on_screen(time: nat, now: nat, lifetime: nat) -> bool {
    time <= now < time + lifetime
}

/// The left edge of a scrolling comment: it enters at the right edge of the
/// screen and has covered the screen and its own width after one lifetime.
pub open spec fn scroll_x(screen_width: nat, line_width: nat, time: nat, now: nat, lifetime: nat) -> int {
    screen_width - ((screen_width + line_width) * (now - time)) / (lifetime as int)
}

/// The left edge of an anchored comment: it is centred.
pub open spec fn centred_x(screen_width: nat, line_width: nat) -> int {
    (screen_width - line_width) / 2
}

/// The baseline of lane `track`, counted from the top.
pub open spec fn top_y(track: nat, line_height: nat) -> int {
    ((track + 1) * line_height) as int
}

/// The baseline of lane `track`, counted from the bottom.
pub open spec fn bottom_y(track: nat, screen_height: nat, line_height: nat) -> int {
    screen_height - track * line_height
}

impl ConfigUniform {
    /// The uniform for a screen. The lifetime keeps its low 32 bits of milliseconds.
    pub fn new(screen_size: (u32, u32), line_height: u32, lifetime: Duration) -> (config: Self)
        ensures
            config.screen_width == screen_size.0,
            config.screen_height == screen_size.1,
            config.line_height == line_height,
            config.lifetime == duration_millis(lifetime) % 0x1_0000_0000,
    {
        let millis: u128 = lifetime.as_millis();
        ConfigUniform {
            screen_width: screen_size.0,
            screen_height: screen_size.1,
            line_height,
            lifetime: (millis % 0x1_0000_0000) as u32,
        }
    }

    /// The uniform as the 32-bit words that go to the GPU.
    pub fn words(&self) -> (words: [u32; 4])
        ensures
            words@ == seq![self.screen_width, self.screen_height, self.line_height, self.lifetime],
    {
        let words = [self.screen_width, self.screen_height, self.line_height, self.lifetime];
        assert(words@ =~= seq![
            self.screen_width,
            self.screen_height,
            self.line_height,
            self.lifetime,
        ]);
        words
    }

    /// The uniform as the bytes that go to the GPU.
    pub fn bytes(&self) -> (bytes: Vec<u8>)
        ensures
            bytes@.len() == 16,
            machine_bytes(
                seq![self.screen_width, self.screen_height, self.line_height, self.lifetime],
                bytes@,
            ),
    {
        let words = self.words();
        words_as_bytes(words.as_slice())
    }

    /// Where the origin of a comment's box stands.
    pub open spec fn origin(
        self,
        position: DanmakuPosition,
        line_width: nat,
        time: nat,
        now: nat,
    ) -> (int, int) {
        match position {
            DanmakuPosition::Scroll(track) => (
                scroll_x(self.screen_width as nat, line_width, time, now, self.lifetime as nat),
                top_y(track as nat, self.line_height as nat),
            ),
            DanmakuPosition::Top(track) => (
                centred_x(self.screen_width as nat, line_width),
                top_y(track as nat, self.line_height as nat),
            ),
            DanmakuPosition::Bottom(track) => (
                centred_x(self.screen_width as nat, line_width),
                bottom_y(track as nat, self.screen_height as nat, self.line_height as nat),
            ),
        }
    }

    /// Whether a comment that appeared at `time` is on screen at `now`.
    pub fn is_on_screen(&self, time: DanmakuTime, now: TimestampUniform) -> (visible: bool)
        ensures
            visible == on_screen(time@, now@, self.lifetime as nat),
    {
        let appeared: u32 = time.as_millis();
        let clock: u32 = now.time_millis();
        clock >= appeared && clock - appeared < self.lifetime
    }

    /// Where the origin of a comment's box stands at `now`, in pixels from the
    /// top left corner of the screen, or `None` while the comment is not on
    /// screen. The glyphs of the comment stand relative to this origin, moved
    /// up by the line's descent.
    pub fn box_origin(
        &self,
        position: DanmakuPosition,
        line_width: u32,
        time: DanmakuTime,
        now: TimestampUniform,
    ) -> (origin: Option<(i128, i128)>)
        ensures
            match origin {
                Some((x, y)) => on_screen(time@, now@, self.lifetime as nat) && (x as int, y as int)
                    == self.origin(position, line_width as nat, time@, now@),
                None => !on_screen(time@, now@, self.lifetime as nat),
            },
    {
        if !self.is_on_screen(time, now) {
            return None;
        }
        let width: i128 = self.screen_width as i128;
        let line: i128 = line_width as i128;
        let passed: i128 = (now.time_millis() - time.as_millis()) as i128;
        let life: i128 = self.lifetime as i128;
        let lane_height: i128 = self.line_height as i128;
        match position {
            DanmakuPosition::Scroll(track) => {
                assert((width + line) * passed <= 0x2_0000_0000 * 0x1_0000_0000) by (nonlinear_arith)
                    requires
                        0 <= width + line <= 0x2_0000_0000,
                        0 <= passed <= 0x1_0000_0000,
                ;
                assert(0 <= (width + line) * passed) by (nonlinear_arith)
                    requires
                        0 <= width + line,
                        0 <= passed,
                ;
                let covered: i128 = (width + line) * passed / life;
                let ghost product: int = (width + line) * passed;
                assert(0 <= product / (life as int) <= product) by (nonlinear_arith)
                    requires
                        0 <= product,
                        life > 0,
                ;
                assert((track as i128 + 1) * lane_height <= 0x1_0000_0000_0000_0001 * 0x1_0000_0000)
                    by (nonlinear_arith)
                    requires
                        0 <= track as i128 + 1 <= 0x1_0000_0000_0000_0001,
                        0 <= lane_height <= 0x1_0000_0000,
                ;
                assert(0 <= (track as i128 + 1) * lane_height) by (nonlinear_arith)
                    requires
                        0 <= track as i128 + 1,
                        0 <= lane_height,
                ;
                Some((width - covered, (track as i128 + 1) * lane_height))
            },
            DanmakuPosition::Top(track) => {
                assert((track as i128 + 1) * lane_height <= 0x1_0000_0000_0000_0001 * 0x1_0000_0000)
                    by (nonlinear_arith)
                    requires
                        0 <= track as i128 + 1 <= 0x1_0000_0000_0000_0001,
                        0 <= lane_height <= 0x1_0000_0000,
                ;
                assert(0 <= (track as i128 + 1) * lane_height) by (nonlinear_arith)
                    requires
                        0 <= track as i128 + 1,
                        0 <= lane_height,
                ;
                Some((half(width - line), (track as i128 + 1) * lane_height))
            },
            DanmakuPosition::Bottom(track) => {
                let height: i128 = self.screen_height as i128;
                assert(track as i128 * lane_height <= 0x1_0000_0000_0000_0000 * 0x1_0000_0000)
                    by (nonlinear_arith)
                    requires
                        0 <= track as i128 <= 0x1_0000_0000_0000_0000,
                        0 <= lane_height <= 0x1_0000_0000,
                ;
                assert(0 <= track as i128 * lane_height) by (nonlinear_arith)
                    requires
                        0 <= track as i128,
                        0 <= lane_height,
                ;
                Some((half(width - line), height - track as i128 * lane_height))
            },
        }
    }
}

/// Half of a number, rounded down.
fn half(number: i128) -> (result: i128)
    requires
        -0x1_0000_0000 <= number <= 0x1_0000_0000,
    ensures
        result == number / 2,
{
    if number >= 0 {
        number / 2
    } else {
        -((1 - number) / 2)
    }
}

} // verus!
