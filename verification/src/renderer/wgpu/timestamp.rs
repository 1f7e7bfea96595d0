//! The clock of the renderer.

use super::config::{machine_bytes, words_as_bytes};
use crate::danmaku::DanmakuTime;
use vstd::prelude::*;
use vstd::std_specs::convert::FromSpecImpl;

verus! {

/// The clock that the vertex shader reads.
#[derive(PartialEq, Eq, Structural, Clone, Copy, Debug)]
pub struct TimestampUniform {
    time_millis: u32,
}

impl View for TimestampUniform {
    type V = nat;

    /// The time on the clock, in milliseconds.
    closed spec fn view(&self) -> nat {
        self.time_millis as nat
    }
}

impl Default for TimestampUniform {
    fn default() -> (clock: Self)
        ensures
            clock@ == 0,
    {
        TimestampUniform { time_millis: 0 }
    }
}

impl FromSpecImpl<DanmakuTime> for TimestampUniform {
    open spec fn obeys_from_spec() -> bool {
        true
    }

    closed spec fn from_spec(value: DanmakuTime) -> TimestampUniform {
        TimestampUniform { time_millis: value.0 }
    }
}

impl From<DanmakuTime> for TimestampUniform {
    fn from(value: DanmakuTime) -> (clock: TimestampUniform)
        ensures
            clock@ == value@,
    {
        TimestampUniform { time_millis: value.as_millis() }
    }
}

impl TimestampUniform {
    pub fn time_millis(&self) -> (millis: u32)
        ensures
            millis == self@,
    {
        self.time_millis
    }

    /// The uniform as the 32-bit words that go to the GPU.
    pub fn words(&self) -> (words: [u32; 1])
        ensures
            words@ == seq![self@ as u32],
    {
        let words = [self.time_millis];
        assert(words@ =~= seq![self@ as u32]);
        words
    }

    /// The uniform as the bytes that go to the GPU.
    pub fn bytes(&self) -> (bytes: Vec<u8>)
        ensures
            bytes@.len() == 4,
            machine_bytes(seq![self@ as u32], bytes@),
    {
        let words = self.words();
        words_as_bytes(words.as_slice())
    }
}

} // verus!
