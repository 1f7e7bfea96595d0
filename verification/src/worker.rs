//! What the worker and the renderer share: the three chunks round the clock,
//! and the rules by which they are requested, made and handed over.

use crate::manager::{ChunkView, DanmakuTimeChunk, ProviderView, ShapedLineView};
use crate::manager_laws::lemma_get_chunk_keeps_coherent;
use crate::store::share;
use std::sync::Arc;
use vstd::prelude::*;

verus! {

/// What a back-end keeps of a chunk in order to draw it.
pub trait ChunkBuffer<Cache>: Sized {
    /// The index of the chunk that this was made of.
    spec fn chunk_index(&self) -> u32;

    /// The base state index of the chunk that this was made of.
    spec fn chunk_base(&self) -> u32;

    /// What the cache has to be like for buffers to be made with it.
    spec fn cache_ready(cache: &Cache) -> bool;

    fn new(chunk: &Arc<DanmakuTimeChunk>, cache: &mut Cache) -> (buffer: Arc<Self>)
        requires
            Self::cache_ready(old(cache)),
        ensures
            Self::cache_ready(final(cache)),
            buffer.chunk_index() == chunk@.index,
            buffer.chunk_base() == chunk@.base_state_index,
    ;

    fn index(&self) -> (index: u32)
        ensures
            index == self.chunk_index(),
    ;

    fn base_state_index(&self) -> (index: u32)
        ensures
            index == self.chunk_base(),
    ;
}

/// A back-end that draws from the chunk itself keeps the chunk.
impl<Cache> ChunkBuffer<Cache> for DanmakuTimeChunk {
    open spec fn chunk_index(&self) -> u32 {
        self@.index
    }

    open spec fn chunk_base(&self) -> u32 {
        self@.base_state_index
    }

    open spec fn cache_ready(cache: &Cache) -> bool {
        true
    }

    fn new(chunk: &Arc<DanmakuTimeChunk>, _cache: &mut Cache) -> (buffer: Arc<Self>) {
        share(chunk)
    }

    fn index(&self) -> (index: u32) {
        DanmakuTimeChunk::index(self)
    }

    fn base_state_index(&self) -> (index: u32) {
        DanmakuTimeChunk::base_state_index(self)
    }
}

/// What the worker is asked to do.
#[derive(PartialEq, Eq, Structural, Clone, Copy, Debug)]
pub enum WorkerRequest {
    /// Make the chunks round the index; the first number is the hint.
    Chunk(Option<u32>, u32),
    Stop,
}

/// The chunk before the clock, the chunk under it and the chunk after it, as
/// the worker last handed them over, beside the cache they were made with.
pub struct WorkerBuffer<Cache, Chunk: ChunkBuffer<Cache>> {
    pub cache: Cache,
    pub previous: Option<Arc<Chunk>>,
    pub current: Option<Arc<Chunk>>,
    pub next: Option<Arc<Chunk>>,
}

impl<Cache: Default, Chunk: ChunkBuffer<Cache>> Default for WorkerBuffer<Cache, Chunk> {
    fn default() -> (buffer: Self)
        ensures
            buffer.previous is None,
            buffer.current is None,
            buffer.next is None,
    {
        WorkerBuffer { cache: Default::default(), previous: None, current: None, next: None }
    }
}

impl<Cache, Chunk: ChunkBuffer<Cache>> WorkerBuffer<Cache, Chunk> {
    /// Whether the buffer holds the three chunks round `index`, made in one run:
    /// their indices are `index - 1`, `index` and `index + 1`, and they share
    /// their base state index.
    pub open spec fn covers(&self, index: u32) -> bool {
        &&& self.previous is Some
        &&& self.current is Some
        &&& self.next is Some
        &&& self.previous.unwrap().chunk_index() + 1 == index
        &&& self.current.unwrap().chunk_index() == index
        &&& self.next.unwrap().chunk_index() == index + 1
        &&& self.previous.unwrap().chunk_base() == self.current.unwrap().chunk_base()
        &&& self.next.unwrap().chunk_base() == self.current.unwrap().chunk_base()
    }

    /// Whether the pair before and under the clock is there for `index`.
    pub open spec fn leads_to(&self, index: u32) -> bool {
        self.previous is Some && self.current is Some && self.current.unwrap().chunk_index() == index
    }

    /// Whether the pair under and after the clock holds chunk `index`.
    pub open spec fn follows(&self, index: u32) -> bool {
        self.current is Some && self.next is Some && (self.current.unwrap().chunk_index() == index
            || self.next.unwrap().chunk_index() == index)
    }

    pub fn new(cache: Cache) -> (buffer: Self)
        ensures
            buffer.cache == cache,
            buffer.previous is None,
            buffer.current is None,
            buffer.next is None,
    {
        WorkerBuffer { cache, previous: None, current: None, next: None }
    }

    /// Whether the renderer has to ask the worker for the chunks round
    /// `index`. It need not when the buffer covers the index.
    pub fn should_request_worker(&self, index: u32) -> (ask: bool)
        ensures
            ask == !self.covers(index),
    {
        match (&self.previous, &self.current, &self.next) {
            (Some(previous), Some(current), Some(next)) => {
                let before: u32 = previous.index();
                let after: u32 = next.index();
                let base: u32 = current.base_state_index();
                !(before < index && before + 1 == index && current.index() == index && index
                    < u32::MAX && after == index + 1 && previous.base_state_index() == base
                    && next.base_state_index() == base)
            },
            _ => true,
        }
    }

    /// The two chunks to draw while the clock is in chunk `index`: the pair
    /// before and under the clock if the chunk under the clock is `index`,
    /// else the pair under and after the clock if either of them is `index`.
    pub fn acquire_index(&self, index: u32) -> (pair: Option<(&Chunk, &Chunk)>)
        ensures
            match pair {
                Some((first, second)) => if self.leads_to(index) {
                    *first == *self.previous.unwrap() && *second == *self.current.unwrap()
                } else {
                    self.follows(index) && *first == *self.current.unwrap() && *second
                        == *self.next.unwrap()
                },
                None => !self.leads_to(index) && !self.follows(index),
            },
    {
        if let (Some(previous), Some(current)) = (&self.previous, &self.current) {
            if current.index() == index {
                return Some((&**previous, &**current));
            }
        }
        if let (Some(current), Some(next)) = (&self.current, &self.next) {
            if current.index() == index {
                return Some((&**current, &**next));
            }
            if next.index() == index {
                return Some((&**current, &**next));
            }
        }
        None
    }

    /// Whether the buffer is empty, or holds the chunks round one index: the
    /// chunk under the clock, the one after it, and the one before it unless
    /// the clock is in the first chunk.
    pub open spec fn coherent(&self) -> bool {
        if self.current is None {
            self.previous is None && self.next is None
        } else {
            &&& self.next is Some
            &&& self.next.unwrap().chunk_index() == self.current.unwrap().chunk_index() + 1
            &&& match self.previous {
                Some(previous) => previous.chunk_index() + 1 == self.current.unwrap().chunk_index(),
                None => self.current.unwrap().chunk_index() == 0,
            }
        }
    }

    /// Makes the buffers of the three chunks that answer a request, and puts
    /// them in place of those that were there, all three in one step. Who
    /// reads the buffer under the lock that guards it sees the old three or
    /// the new three.
    pub fn publish(&mut self, triple: &ChunkTriple)
        requires
            Chunk::cache_ready(&old(self).cache),
            triple.wf(),
        ensures
            Chunk::cache_ready(&final(self).cache),
            final(self).coherent(),
            final(self).current.unwrap().chunk_index() == triple.current@.index,
            final(self).current.unwrap().chunk_base() == triple.current@.base_state_index,
            final(self).next.unwrap().chunk_base() == triple.next@.base_state_index,
            final(self).previous is Some <==> triple.previous is Some,
            final(self).previous matches Some(previous) ==> previous.chunk_base()
                == triple.previous.unwrap()@.base_state_index,
            triple.shares_base() && triple.previous is Some ==> final(self).covers(
                triple.current@.index,
            ),
    {
        let previous: Option<Arc<Chunk>> = match &triple.previous {
            Some(chunk) => Some(Chunk::new(chunk, &mut self.cache)),
            None => None,
        };
        let current: Arc<Chunk> = Chunk::new(&triple.current, &mut self.cache);
        let next: Arc<Chunk> = Chunk::new(&triple.next, &mut self.cache);
        self.store(previous, current, next);
    }

    /// Replaces the three chunks in one step.
    pub fn store(&mut self, previous: Option<Arc<Chunk>>, current: Arc<Chunk>, next: Arc<Chunk>)
        ensures
            final(self).cache == old(self).cache,
            final(self).previous == previous,
            final(self).current == Some(current),
            final(self).next == Some(next),
    {
        self.previous = previous;
        self.current = Some(current);
        self.next = Some(next);
    }
}

/// Keeps the manager from sending the worker the request it sent last.
pub struct RequestLog {
    last_request: Option<(Option<u32>, u32)>,
}

impl View for RequestLog {
    type V = Option<(Option<u32>, u32)>;

    /// The request that was sent last, if any was.
    closed spec fn view(&self) -> Option<(Option<u32>, u32)> {
        self.last_request
    }
}

/// The message that a request puts on the channel, given the request that was
/// sent last: none if it is the same request.
pub open spec fn message_for(last: Option<(Option<u32>, u32)>, hint: Option<u32>, index: u32) -> Option<
    WorkerRequest,
> {
    if last == Some((hint, index)) {
        None
    } else {
        Some(WorkerRequest::Chunk(hint, index))
    }
}

impl RequestLog {
    pub fn new() -> (log: Self)
        ensures
            log@ is None,
    {
        RequestLog { last_request: None }
    }

    /// The message to send for a request, if any.
    pub fn request(&self, state_begin_index: Option<u32>, index: u32) -> (message: Option<WorkerRequest>)
        ensures
            message == message_for(self@, state_begin_index, index),
    {
        match self.last_request {
            Some((hint, last)) => {
                let same_hint: bool = match (hint, state_begin_index) {
                    (Some(a), Some(b)) => a == b,
                    (None, None) => true,
                    _ => false,
                };
                if same_hint && last == index {
                    None
                } else {
                    Some(WorkerRequest::Chunk(state_begin_index, index))
                }
            },
            None => Some(WorkerRequest::Chunk(state_begin_index, index)),
        }
    }

    /// Notes that the request was sent.
    pub fn sent(&mut self, state_begin_index: Option<u32>, index: u32)
        ensures
            final(self)@ == Some((state_begin_index, index)),
    {
        self.last_request = Some((state_begin_index, index));
    }

    /// The request to send again after the worker was started anew.
    pub fn last_request(&self) -> (message: Option<WorkerRequest>)
        ensures
            message == match self@ {
                Some((hint, index)) => Some(WorkerRequest::Chunk(hint, index)),
                None => None,
            },
    {
        match self.last_request {
            Some((hint, index)) => Some(WorkerRequest::Chunk(hint, index)),
            None => None,
        }
    }
}

/// Request deduplication. The same request made twice in a row puts one
/// message on the channel: the first time it is sent, unless it was the last
/// one sent already, and then it is noted; the second time nothing is sent.
pub proof fn lemma_same_request_sent_once(last: Option<(Option<u32>, u32)>, hint: Option<u32>, index: u32)
    ensures
        message_for(last, hint, index) is Some <==> last != Some((hint, index)),
        message_for(last, hint, index) is Some ==> message_for(last, hint, index) == Some(
            WorkerRequest::Chunk(hint, index),
        ),
        message_for(Some((hint, index)), hint, index) is None,
{
}

/// Why the worker could not be reached.
#[derive(PartialEq, Eq, Structural, Clone, Copy, Debug)]
pub enum WorkerError {
    JoinError,
    SendError,
}

impl WorkerError {
    /// What to tell the user.
    pub fn message(&self) -> (text: &'static str)
        ensures
            text@ == match self {
                WorkerError::JoinError => "Worker thread panicked"@,
                WorkerError::SendError => "Failed to send message to worker"@,
            },
    {
        match self {
            WorkerError::JoinError => "Worker thread panicked",
            WorkerError::SendError => "Failed to send message to worker",
        }
    }
}

/// The three chunks that answer one request.
pub struct ChunkTriple {
    pub previous: Option<Arc<DanmakuTimeChunk>>,
    pub current: Arc<DanmakuTimeChunk>,
    pub next: Arc<DanmakuTimeChunk>,
}

impl ChunkTriple {
    /// The chunks lie round one index: the indices are consecutive, and the
    /// chunk before is missing exactly at the start of the timeline.
    pub open spec fn wf(&self) -> bool {
        &&& self.next@.index == self.current@.index + 1
        &&& match self.previous {
            Some(previous) => previous@.index + 1 == self.current@.index,
            None => self.current@.index == 0,
        }
    }

    /// The chunks were made in one run of the layout.
    pub open spec fn shares_base(&self) -> bool {
        &&& self.next@.base_state_index == self.current@.base_state_index
        &&& self.previous matches Some(previous) ==> previous@.base_state_index
            == self.current@.base_state_index
    }
}

/// The work on one request `Chunk(start, now)`: which chunk to get next, with
/// which hint, and the chunks got so far.
pub struct TripleJob {
    start: Option<u32>,
    now: u32,
    previous: Option<Arc<DanmakuTimeChunk>>,
    current: Option<Arc<DanmakuTimeChunk>>,
    next: Option<Arc<DanmakuTimeChunk>>,
}

pub ghost struct TripleJobView {
    pub start: Option<u32>,
    pub now: u32,
    pub previous: Option<ChunkView>,
    pub current: Option<ChunkView>,
    pub next: Option<ChunkView>,
}

impl TripleJobView {
    /// The first chunk that the job gets: the chunk before the clock, or at
    /// the start of the timeline the chunk under it.
    pub open spec fn first(self) -> Option<ChunkView> {
        if self.now > 0 {
            self.previous
        } else {
            self.current
        }
    }

    /// The hint for the chunks that follow the first: where the state of the
    /// first chunk was started. Until the first chunk is there, it is the
    /// hint of the request.
    pub open spec fn later_hint(self) -> Option<u32> {
        match self.first() {
            Some(first) => Some(first.base_state_index),
            None => self.start,
        }
    }

    /// The chunk to get next, with its hint: first the chunk before the clock
    /// if there is one, then the chunk under it, then the chunk after it.
    pub open spec fn wanted(self) -> Option<(Option<u32>, u32)> {
        if self.now > 0 && self.previous is None {
            Some((self.start, (self.now - 1) as u32))
        } else if self.current is None {
            Some((self.later_hint(), self.now))
        } else if self.next is None {
            Some((self.later_hint(), (self.now + 1) as u32))
        } else {
            None
        }
    }

    /// The job once `chunk` has come in for what was wanted.
    pub open spec fn supplied(self, chunk: ChunkView) -> TripleJobView {
        if self.now > 0 && self.previous is None {
            TripleJobView { previous: Some(chunk), ..self }
        } else if self.current is None {
            TripleJobView { current: Some(chunk), ..self }
        } else {
            TripleJobView { next: Some(chunk), ..self }
        }
    }
}

impl View for TripleJob {
    type V = TripleJobView;

    closed spec fn view(&self) -> TripleJobView {
        TripleJobView {
            start: self.start,
            now: self.now,
            previous: match self.previous {
                Some(chunk) => Some(chunk@),
                None => None,
            },
            current: match self.current {
                Some(chunk) => Some(chunk@),
                None => None,
            },
            next: match self.next {
                Some(chunk) => Some(chunk@),
                None => None,
            },
        }
    }
}

impl TripleJob {
    /// The chunks come in in order, and each bears the index it was wanted for.
    pub open spec fn wf(&self) -> bool {
        &&& self@.now < u32::MAX
        &&& self@.now == 0 ==> self@.previous is None
        &&& self@.previous matches Some(chunk) ==> chunk.index + 1 == self@.now
        &&& self@.current matches Some(chunk) ==> chunk.index == self@.now && (self@.now > 0
            ==> self@.previous is Some)
        &&& self@.next matches Some(chunk) ==> chunk.index == self@.now + 1 && self@.current is Some
    }

    pub fn new(start: Option<u32>, now: u32) -> (job: Self)
        requires
            now < u32::MAX,
        ensures
            job.wf(),
            job@ == (TripleJobView { start, now, previous: None, current: None, next: None }),
    {
        TripleJob { start, now, previous: None, current: None, next: None }
    }

    /// The chunk to get next, with the hint to give for it; `None` when all
    /// three are there.
    pub fn wanted(&self) -> (request: Option<(Option<u32>, u32)>)
        requires
            self.wf(),
        ensures
            request == self@.wanted(),
    {
        let first = if self.now > 0 {
            &self.previous
        } else {
            &self.current
        };
        let later: Option<u32> = match first {
            Some(first) => Some(first.base_state_index()),
            None => self.start,
        };
        if self.now > 0 && self.previous.is_none() {
            Some((self.start, self.now - 1))
        } else if self.current.is_none() {
            Some((later, self.now))
        } else if self.next.is_none() {
            Some((later, self.now + 1))
        } else {
            None
        }
    }

    /// Takes the chunk that was wanted.
    pub fn supply(&mut self, chunk: Arc<DanmakuTimeChunk>)
        requires
            old(self).wf(),
            old(self)@.wanted() matches Some((_, index)) && chunk@.index == index,
        ensures
            final(self).wf(),
            final(self)@ == old(self)@.supplied(chunk@),
    {
        if self.now > 0 && self.previous.is_none() {
            self.previous = Some(chunk);
        } else if self.current.is_none() {
            self.current = Some(chunk);
        } else {
            self.next = Some(chunk);
        }
    }

    /// The three chunks, once nothing is wanted any more.
    pub fn finish(self) -> (triple: ChunkTriple)
        requires
            self.wf(),
            self@.wanted() is None,
        ensures
            triple.wf(),
            triple.previous is Some <==> self@.now > 0,
            triple.previous matches Some(chunk) ==> Some(chunk@) == self@.previous && chunk@.index
                + 1 == self@.now,
            Some(triple.current@) == self@.current,
            Some(triple.next@) == self@.next,
            triple.current@.index == self@.now,
            triple.next@.index == self@.now + 1,
    {
        ChunkTriple {
            previous: self.previous,
            current: self.current.unwrap(),
            next: self.next.unwrap(),
        }
    }
}

/// A chunk that is requested right after the chunk before it was made, with
/// that chunk's base as the hint, continues the same run: it bears the same
/// base state index.
pub proof fn lemma_successor_shares_base(
    provider: ProviderView,
    shaped: Seq<Option<ShapedLineView>>,
    later: Seq<Option<ShapedLineView>>,
    hint: Option<u32>,
    index: u32,
)
    requires
        index < u32::MAX,
        !provider.hit(hint, index),
    ensures
        ({
            let (made, chunk) = provider.get_chunk(shaped, hint, index);
            made.get_chunk(later, Some(chunk.base_state_index), (index + 1) as u32).1.base_state_index
                == chunk.base_state_index
        }),
{
}

/// Whether a request for chunk `index` with `hint` continues the run of the
/// chunk before: it is answered from the chunks already made, or it finds the
/// state that the chunk before left behind.
pub open spec fn continues(provider: ProviderView, hint: u32, index: u32) -> bool {
    provider.hit(Some(hint), index) || (index > 0 && provider.states.contains_key((index - 1) as u32))
}

/// The three chunks of one request lie round the clock, and they share their
/// base state index exactly when each of the two later requests continues the
/// run of the chunk before it. They do not when a later chunk has to be made
/// afresh: the state that the chunk before it left behind was used up, and the
/// chunk that is held under its index was started elsewhere.
pub proof fn lemma_triple_shares_base(
    provider: ProviderView,
    before: Seq<Option<ShapedLineView>>,
    under: Seq<Option<ShapedLineView>>,
    after: Seq<Option<ShapedLineView>>,
    start: Option<u32>,
    now: u32,
)
    requires
        provider.coherent(),
        0 < now < u32::MAX,
    ensures
        ({
            let (first, previous) = provider.get_chunk(before, start, (now - 1) as u32);
            let hint = previous.base_state_index;
            let (second, current) = first.get_chunk(under, Some(hint), now);
            let next = second.get_chunk(after, Some(hint), (now + 1) as u32).1;
            &&& previous.index + 1 == now
            &&& current.index == now
            &&& next.index == now + 1
            &&& (current.base_state_index == hint && next.base_state_index == hint) <==> (continues(
                first,
                hint,
                now,
            ) && continues(second, hint, (now + 1) as u32))
        }),
{
    let (first, previous) = provider.get_chunk(before, start, (now - 1) as u32);
    let hint = previous.base_state_index;
    lemma_get_chunk_keeps_coherent(provider, before, start, (now - 1) as u32);
    let (second, current) = first.get_chunk(under, Some(hint), now);
    lemma_get_chunk_keeps_coherent(first, under, Some(hint), now);
    lemma_get_chunk_keeps_coherent(second, after, Some(hint), (now + 1) as u32);
}

/// At the start of the timeline the two chunks of one request share their
/// base state index exactly when the request for the second continues the run
/// of the first.
pub proof fn lemma_pair_shares_base(
    provider: ProviderView,
    under: Seq<Option<ShapedLineView>>,
    after: Seq<Option<ShapedLineView>>,
    start: Option<u32>,
)
    requires
        provider.coherent(),
    ensures
        ({
            let (first, current) = provider.get_chunk(under, start, 0);
            let job = TripleJobView {
                start,
                now: 0,
                previous: None,
                current: Some(current),
                next: None,
            };
            let next = first.get_chunk(after, Some(current.base_state_index), 1).1;
            &&& job.wanted() == Some((Some(current.base_state_index), 1u32))
            &&& current.index == 0
            &&& current.base_state_index == 0
            &&& next.index == 1
            &&& next.base_state_index == current.base_state_index <==> continues(
                first,
                current.base_state_index,
                1,
            )
            &&& !provider.hit(start, 0) ==> continues(first, current.base_state_index, 1)
        }),
{
    let (first, current) = provider.get_chunk(under, start, 0);
    lemma_get_chunk_keeps_coherent(provider, under, start, 0);
    lemma_get_chunk_keeps_coherent(first, after, Some(current.base_state_index), 1);
}

} // verus!
