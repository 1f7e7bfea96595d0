use danmaku_renderer::danmaku::{Danmaku, DanmakuColor, DanmakuSize, DanmakuTime, DanmakuType};
use danmaku_renderer::layout::LayoutMode;
use danmaku_renderer::manager::{DanmakuTimeChunk, DanmakuTimeChunkProvider};
use danmaku_renderer::sources::VecDanmakuSource;
use danmaku_renderer::worker::{
    ChunkBuffer, RequestLog, TripleJob, WorkerBuffer, WorkerError, WorkerRequest,
};
use std::sync::Arc;
use std::time::Duration;

fn empty_provider() -> DanmakuTimeChunkProvider<VecDanmakuSource> {
    DanmakuTimeChunkProvider::new(
        Duration::from_millis(1000),
        (1280, 720),
        32,
        LayoutMode::ShowAll,
        VecDanmakuSource::new(vec![Danmaku {
            time: DanmakuTime::from_millis(1500),
            kind: DanmakuType::Scroll,
            size: DanmakuSize::Small,
            color: DanmakuColor::from_code(0),
            content: "x".to_string(),
        }]),
    )
}

fn run_job(
    provider: &mut DanmakuTimeChunkProvider<VecDanmakuSource>,
    start: Option<u32>,
    now: u32,
) -> (Vec<(Option<u32>, u32)>, WorkerBuffer<(), DanmakuTimeChunk>) {
    let mut job = TripleJob::new(start, now);
    let mut asked = Vec::new();
    while let Some((hint, index)) = job.wanted() {
        asked.push((hint, index));
        let chunk = provider.get_chunk(Vec::new(), hint, index);
        job.supply(chunk);
    }
    let triple = job.finish();
    let mut buffer: WorkerBuffer<(), DanmakuTimeChunk> = WorkerBuffer::new(());
    let mut cache = ();
    let previous = triple.previous.as_ref().map(|chunk| ChunkBuffer::new(chunk, &mut cache));
    let current = ChunkBuffer::new(&triple.current, &mut cache);
    let next = ChunkBuffer::new(&triple.next, &mut cache);
    buffer.store(previous, current, next);
    (asked, buffer)
}

#[test]
fn job_asks_for_three_chunks_in_order() {
    let mut provider = empty_provider();
    let (asked, buffer) = run_job(&mut provider, Some(0), 7);
    // Nothing was there: chunk 6 starts a run, and its base is the hint for the rest.
    assert_eq!(asked, vec![(Some(0), 6), (Some(6), 7), (Some(6), 8)]);
    assert_eq!(buffer.previous.as_ref().unwrap().index, 6);
    assert_eq!(buffer.current.as_ref().unwrap().index, 7);
    assert_eq!(buffer.next.as_ref().unwrap().index, 8);
    assert_eq!(buffer.previous.as_ref().unwrap().base_state_index, 6);
    assert_eq!(buffer.current.as_ref().unwrap().base_state_index, 6);
    assert_eq!(buffer.next.as_ref().unwrap().base_state_index, 6);
    assert!(!buffer.should_request_worker(7));
    assert!(buffer.should_request_worker(6));
    assert!(buffer.should_request_worker(8));
}

#[test]
fn job_at_the_start_has_no_previous_chunk() {
    let mut provider = empty_provider();
    let (asked, buffer) = run_job(&mut provider, None, 0);
    // The first chunk got is chunk 0, and its base is the hint for chunk 1.
    assert_eq!(asked, vec![(None, 0), (Some(0), 1)]);
    assert!(buffer.previous.is_none());
    assert_eq!(buffer.current.as_ref().unwrap().index, 0);
    assert_eq!(buffer.next.as_ref().unwrap().index, 1);
    // Without a chunk before the clock the buffer does not cover the index.
    assert!(buffer.should_request_worker(0));
    let (first, second) = buffer.acquire_index(0).unwrap();
    assert_eq!((first.index, second.index), (0, 1));
    let (first, second) = buffer.acquire_index(1).unwrap();
    assert_eq!((first.index, second.index), (0, 1));
    assert!(buffer.acquire_index(2).is_none());
}

#[test]
fn job_at_the_start_shares_one_base() {
    let mut provider = empty_provider();
    // Chunk 1 is made afresh: its state starts at 1.
    let lone = provider.get_chunk(Vec::new(), None, 1);
    assert_eq!(lone.base_state_index(), 1);
    let (asked, buffer) = run_job(&mut provider, None, 0);
    assert_eq!(asked, vec![(None, 0), (Some(0), 1)]);
    assert_eq!(buffer.current.as_ref().unwrap().base_state_index, 0);
    assert_eq!(buffer.next.as_ref().unwrap().base_state_index, 0);
}

#[test]
fn acquire_prefers_the_pair_that_ends_at_the_index() {
    let mut provider = empty_provider();
    let (_, buffer) = run_job(&mut provider, None, 3);
    let (first, second) = buffer.acquire_index(3).unwrap();
    assert_eq!((first.index, second.index), (2, 3));
    let (first, second) = buffer.acquire_index(4).unwrap();
    assert_eq!((first.index, second.index), (3, 4));
    assert!(buffer.acquire_index(2).is_none());
    assert!(buffer.acquire_index(5).is_none());
}

#[test]
fn empty_buffer_covers_nothing() {
    let buffer: WorkerBuffer<(), DanmakuTimeChunk> = WorkerBuffer::new(());
    assert!(buffer.should_request_worker(0));
    assert!(buffer.should_request_worker(u32::MAX));
    assert!(buffer.acquire_index(0).is_none());
    let default: WorkerBuffer<(), DanmakuTimeChunk> = Default::default();
    assert!(default.previous.is_none() && default.current.is_none() && default.next.is_none());
}

#[test]
fn buffer_with_mixed_bases_asks_again() {
    let mut provider = empty_provider();
    // A run from chunk 1, and chunk 2 made again from scratch.
    let (_, _) = run_job(&mut provider, None, 2);
    let remade = provider.get_chunk(Vec::new(), Some(9), 2);
    assert_eq!(remade.base_state_index, 2);
    let (asked, buffer) = run_job(&mut provider, Some(1), 2);
    assert_eq!(asked, vec![(Some(1), 1), (Some(1), 2), (Some(1), 3)]);
    assert_eq!(buffer.previous.as_ref().unwrap().base_state_index, 1);
    assert_eq!(buffer.current.as_ref().unwrap().base_state_index, 2);
    assert!(buffer.should_request_worker(2));
}

#[test]
fn chunk_is_its_own_buffer() {
    let mut provider = empty_provider();
    let chunk: Arc<DanmakuTimeChunk> = provider.get_chunk(Vec::new(), None, 4);
    let mut cache = 0u8;
    let buffer: Arc<DanmakuTimeChunk> = ChunkBuffer::new(&chunk, &mut cache);
    assert!(Arc::ptr_eq(&chunk, &buffer));
    assert_eq!(<DanmakuTimeChunk as ChunkBuffer<u8>>::index(&buffer), 4);
    assert_eq!(<DanmakuTimeChunk as ChunkBuffer<u8>>::base_state_index(&buffer), 4);
}

#[test]
fn same_request_twice_is_sent_once() {
    let mut log = RequestLog::new();
    let mut channel: Vec<WorkerRequest> = Vec::new();
    for _ in 0..2 {
        if let Some(message) = log.request(Some(3), 9) {
            channel.push(message);
            log.sent(Some(3), 9);
        }
    }
    assert_eq!(channel, vec![WorkerRequest::Chunk(Some(3), 9)]);
    assert_eq!(log.last_request(), Some(WorkerRequest::Chunk(Some(3), 9)));
}

#[test]
fn different_requests_are_all_sent() {
    let mut log = RequestLog::new();
    assert_eq!(log.last_request(), None);
    let requests = [(None, 0), (Some(0), 0), (Some(0), 1), (Some(1), 1), (None, 1), (None, 0)];
    let mut sent = 0;
    for (hint, index) in requests {
        assert_eq!(log.request(hint, index), Some(WorkerRequest::Chunk(hint, index)));
        log.sent(hint, index);
        assert_eq!(log.request(hint, index), None);
        sent += 1;
    }
    assert_eq!(sent, 6);
}

#[test]
fn request_that_was_not_sent_is_not_remembered() {
    let log = RequestLog::new();
    assert_eq!(log.request(None, 4), Some(WorkerRequest::Chunk(None, 4)));
    // The send failed, nothing was noted: the request goes out again.
    assert_eq!(log.request(None, 4), Some(WorkerRequest::Chunk(None, 4)));
}

#[test]
fn worker_errors_say_what_happened() {
    assert_eq!(WorkerError::JoinError.message(), "Worker thread panicked");
    assert_eq!(WorkerError::SendError.message(), "Failed to send message to worker");
}
