use h2::error::ConnectionError;
use h2::frame::{Data, Frame, WindowUpdate, MAX_WINDOW_SIZE};
use h2::prioritize::{Config, PollStatus, Prioritize};
use h2::sink::FrameSink;
use h2::store::{Key, Store};

fn data(stream_id: u32, len: usize) -> Frame {
    Frame::Data(Data::new(stream_id, vec![0u8; len]))
}

fn tagged(stream_id: u32, tag: u8, len: usize) -> Frame {
    Frame::Data(Data::new(stream_id, vec![tag; len]))
}

fn scheduler(window: u32) -> Prioritize {
    Prioritize::new(&Config { init_local_window_sz: window })
}

/// (stream id, payload length, first payload byte) of a data frame.
fn describe(f: &Frame) -> (u32, usize, u8) {
    match f {
        Frame::Data(d) => (d.stream_id, d.payload.len(), d.payload.first().copied().unwrap_or(0)),
        other => panic!("expected a data frame, got {:?}", other),
    }
}

fn drain(p: &mut Prioritize, store: &mut Store) -> (PollStatus, Vec<Frame>) {
    let mut sink = FrameSink::new(64);
    let status = p.poll_complete(store, &mut sink, 1);
    (status, sink.take_frames())
}

#[test]
fn scenario_a_oversized_frame_blocks() {
    let mut store = Store::new();
    let s = store.insert(1);
    let mut p = scheduler(100);
    p.queue_frame(data(1, 150), &mut store, s);
    assert_eq!(p.buffered_data(), 150);
    assert_eq!(p.available_window(), 0);
    let (status, sent) = drain(&mut p, &mut store);
    assert_eq!(status, PollStatus::Ready);
    assert!(sent.is_empty());
    assert!(p.is_pending_capacity(s));
    assert!(!p.is_pending_send(s));
    assert!(store.is_pending_send(s));
    assert_eq!(store.queued(s), 1);
    assert_eq!(p.buffered_data(), 150);
}

#[test]
fn scenario_b_window_update_unblocks() {
    let mut store = Store::new();
    let s = store.insert(1);
    let mut p = scheduler(100);
    p.queue_frame(data(1, 150), &mut store, s);
    let (_, sent) = drain(&mut p, &mut store);
    assert!(sent.is_empty());
    assert_eq!(p.recv_window_update(WindowUpdate::new(0, 100)), Ok(Some(1)));
    assert_eq!(p.effective_window_size(), 200);
    assert_eq!(p.available_window(), 50);
    assert!(p.is_pending_capacity(s));
    let (status, sent) = drain(&mut p, &mut store);
    assert_eq!(status, PollStatus::Ready);
    assert_eq!(sent.len(), 1);
    assert_eq!(describe(&sent[0]).1, 150);
    assert_eq!(p.buffered_data(), 0);
    assert!(!store.is_pending_send(s));
    assert!(!p.is_pending_capacity(s));
    assert!(!p.is_pending_send(s));
    assert_eq!(store.queued(s), 0);
}

#[test]
fn scenario_c_round_robin() {
    let mut store = Store::new();
    let s1 = store.insert(1);
    let s2 = store.insert(3);
    let mut p = scheduler(1000);
    p.queue_frame(tagged(1, 1, 10), &mut store, s1);
    p.queue_frame(tagged(1, 2, 10), &mut store, s1);
    p.queue_frame(tagged(3, 1, 10), &mut store, s2);
    p.queue_frame(tagged(3, 2, 10), &mut store, s2);
    let (status, sent) = drain(&mut p, &mut store);
    assert_eq!(status, PollStatus::Ready);
    let order: Vec<(u32, u8)> = sent.iter().map(|f| {
        let (id, _, tag) = describe(f);
        (id, tag)
    }).collect();
    assert_eq!(order, vec![(1, 1), (3, 1), (1, 2), (3, 2)]);
    assert_eq!(p.buffered_data(), 0);
}

#[test]
fn scenario_d_expand_window_overflow() {
    let mut store = Store::new();
    let s = store.insert(1);
    let mut p = scheduler(MAX_WINDOW_SIZE - 10);
    assert_eq!(p.recv_window_update(WindowUpdate::new(0, 11)), Err(ConnectionError::FlowControlError));
    assert_eq!(p.effective_window_size(), MAX_WINDOW_SIZE - 10);
    assert_eq!(p.recv_window_update(WindowUpdate::new(0, 10)), Ok(None));
    assert_eq!(p.effective_window_size(), MAX_WINDOW_SIZE);
    p.queue_frame(data(1, 5), &mut store, s);
    let (_, sent) = drain(&mut p, &mut store);
    assert_eq!(sent.len(), 1);
}

#[test]
fn scenario_e_control_frame_ignores_window() {
    let mut store = Store::new();
    let s = store.insert(5);
    let mut p = scheduler(0);
    assert_eq!(p.effective_window_size(), 0);
    p.queue_frame(Frame::Headers { stream_id: 5, end_stream: false }, &mut store, s);
    assert_eq!(p.buffered_data(), 0);
    let (status, sent) = drain(&mut p, &mut store);
    assert_eq!(status, PollStatus::Ready);
    assert_eq!(sent.len(), 1);
    assert!(matches!(sent[0], Frame::Headers { stream_id: 5, end_stream: false }));
    assert_eq!(store.queued(s), 0);
}

#[test]
fn control_frame_behind_blocked_data_waits_in_order() {
    let mut store = Store::new();
    let s = store.insert(1);
    let mut p = scheduler(0);
    p.queue_frame(data(1, 4), &mut store, s);
    p.queue_frame(Frame::Reset { stream_id: 1, error_code: 8 }, &mut store, s);
    let (_, sent) = drain(&mut p, &mut store);
    assert!(sent.is_empty());
    assert!(p.is_pending_capacity(s));
    assert_eq!(store.queued(s), 2);
}

#[test]
fn empty_data_frame_passes_closed_window() {
    let mut store = Store::new();
    let s = store.insert(1);
    let mut p = scheduler(0);
    p.queue_frame(data(1, 0), &mut store, s);
    let (_, sent) = drain(&mut p, &mut store);
    assert_eq!(sent.len(), 1);
}

#[test]
fn membership_flag_matches_lists() {
    let mut store = Store::new();
    let s1 = store.insert(1);
    let s2 = store.insert(3);
    let s3 = store.insert(5);
    let mut p = scheduler(50);
    p.queue_frame(data(1, 80), &mut store, s1);
    p.queue_frame(data(3, 10), &mut store, s2);
    p.queue_frame(data(3, 10), &mut store, s2);
    for k in [s1, s2, s3] {
        assert_eq!(store.is_pending_send(k), p.is_pending_send(k) || p.is_pending_capacity(k));
        assert!(!(p.is_pending_send(k) && p.is_pending_capacity(k)));
    }
    let mut sink = FrameSink::new(1);
    assert_eq!(p.poll_complete(&mut store, &mut sink, 9), PollStatus::NotReady);
    for k in [s1, s2, s3] {
        assert_eq!(store.is_pending_send(k), p.is_pending_send(k) || p.is_pending_capacity(k));
        assert!(!(p.is_pending_send(k) && p.is_pending_capacity(k)));
        assert_eq!(store.is_pending_send(k), store.queued(k) > 0);
    }
    assert!(p.is_pending_capacity(s1));
    assert!(p.is_pending_send(s2));
    assert!(!store.is_pending_send(s3));
}

#[test]
fn buffered_counts_queued_payload() {
    let mut store = Store::new();
    let s1 = store.insert(1);
    let s2 = store.insert(3);
    let mut p = scheduler(100);
    p.queue_frame(data(1, 30), &mut store, s1);
    p.queue_frame(Frame::Headers { stream_id: 3, end_stream: true }, &mut store, s2);
    p.queue_frame(data(3, 45), &mut store, s2);
    assert_eq!(p.buffered_data(), 75);
    assert_eq!(p.available_window(), 25);
    let mut sink = FrameSink::new(2);
    assert_eq!(p.poll_complete(&mut store, &mut sink, 1), PollStatus::NotReady);
    assert_eq!(sink.len(), 2);
    assert_eq!(p.buffered_data(), 45);
    assert_eq!(p.available_window(), 55);
}

#[test]
fn available_window_saturates() {
    let mut store = Store::new();
    let s = store.insert(1);
    let mut p = scheduler(100);
    assert_eq!(p.available_window(), 100);
    p.queue_frame(data(1, 100), &mut store, s);
    assert_eq!(p.available_window(), 0);
}

#[test]
fn emitted_data_fits_window() {
    let mut store = Store::new();
    let s1 = store.insert(1);
    let s2 = store.insert(3);
    let s3 = store.insert(5);
    let mut p = scheduler(10);
    p.queue_frame(data(1, 5), &mut store, s1);
    p.queue_frame(data(3, 20), &mut store, s2);
    p.queue_frame(data(5, 10), &mut store, s3);
    let (_, sent) = drain(&mut p, &mut store);
    assert_eq!(sent.len(), 2);
    for f in &sent {
        assert!(describe(f).1 <= 10);
    }
    assert!(p.is_pending_capacity(s2));
    assert_eq!(p.buffered_data(), 20);
}

#[test]
fn frames_of_a_stream_keep_their_order() {
    let mut store = Store::new();
    let s1 = store.insert(1);
    let s2 = store.insert(3);
    let mut p = scheduler(1000);
    for tag in 1..=4u8 {
        p.queue_frame(tagged(1, tag, 3), &mut store, s1);
    }
    p.queue_frame(tagged(3, 9, 3), &mut store, s2);
    let (_, sent) = drain(&mut p, &mut store);
    let tags: Vec<u8> = sent.iter().filter(|f| describe(f).0 == 1).map(|f| describe(f).2).collect();
    assert_eq!(tags, vec![1, 2, 3, 4]);
    assert_eq!(sent.len(), 5);
}

#[test]
fn unblocked_stream_goes_first() {
    let mut store = Store::new();
    let s1 = store.insert(1);
    let s2 = store.insert(3);
    let mut p = scheduler(100);
    p.queue_frame(data(1, 150), &mut store, s1);
    let (_, sent) = drain(&mut p, &mut store);
    assert!(sent.is_empty());
    p.queue_frame(data(3, 10), &mut store, s2);
    assert_eq!(p.recv_window_update(WindowUpdate::new(0, 100)), Ok(Some(1)));
    let (_, sent) = drain(&mut p, &mut store);
    let ids: Vec<u32> = sent.iter().map(|f| describe(f).0).collect();
    assert_eq!(ids, vec![1, 3]);
}

#[test]
fn sink_backpressure_resumes() {
    let mut store = Store::new();
    let s = store.insert(1);
    let mut p = scheduler(100);
    p.queue_frame(tagged(1, 1, 1), &mut store, s);
    p.queue_frame(tagged(1, 2, 1), &mut store, s);
    let mut sink = FrameSink::new(1);
    assert_eq!(p.poll_complete(&mut store, &mut sink, 4), PollStatus::NotReady);
    assert!(!sink.poll_ready());
    let first = sink.take_frames();
    assert_eq!(describe(&first[0]).2, 1);
    assert!(sink.poll_ready());
    assert_eq!(p.poll_complete(&mut store, &mut sink, 4), PollStatus::NotReady);
    let second = sink.take_frames();
    assert_eq!(describe(&second[0]).2, 2);
    assert_eq!(p.poll_complete(&mut store, &mut sink, 4), PollStatus::Ready);
    assert_eq!(sink.len(), 0);
}

#[test]
fn queue_frame_reports_task_to_wake() {
    let mut store = Store::new();
    let s1 = store.insert(1);
    let s2 = store.insert(3);
    let mut p = scheduler(100);
    assert_eq!(p.queue_frame(data(1, 1), &mut store, s1), None);
    let mut sink = FrameSink::new(8);
    assert_eq!(p.poll_complete(&mut store, &mut sink, 42), PollStatus::Ready);
    assert_eq!(p.queue_frame(data(3, 1), &mut store, s2), Some(42));
    assert_eq!(p.queue_frame(data(3, 1), &mut store, s2), None);
    assert_eq!(p.poll_complete(&mut store, &mut sink, 43), PollStatus::Ready);
    assert_eq!(p.queue_frame(data(1, 1), &mut store, s1), Some(43));
}

#[test]
fn store_keys_are_sequential() {
    let mut store = Store::new();
    let a: Key = store.insert(7);
    let b: Key = store.insert(9);
    assert_eq!((a, b), (0, 1));
    assert_eq!(store.len(), 2);
    assert_eq!(store.streams[1].id, 9);
    assert_eq!(store.queued(a), 0);
}

#[test]
fn window_update_wakes_drain_task() {
    let mut store = Store::new();
    let s = store.insert(1);
    let mut p = scheduler(10);
    assert_eq!(p.recv_window_update(WindowUpdate::new(0, 5)), Ok(None));
    p.queue_frame(data(1, 40), &mut store, s);
    let mut sink = FrameSink::new(8);
    assert_eq!(p.poll_complete(&mut store, &mut sink, 77), PollStatus::Ready);
    assert_eq!(sink.len(), 0);
    assert_eq!(p.recv_window_update(WindowUpdate::new(0, 25)), Ok(Some(77)));
    assert_eq!(p.poll_complete(&mut store, &mut sink, 77), PollStatus::Ready);
    assert_eq!(sink.len(), 1);
    assert_eq!(p.recv_window_update(WindowUpdate::new(0, MAX_WINDOW_SIZE)), Err(ConnectionError::FlowControlError));
}

#[test]
fn every_unblocked_stream_goes_before_send_list() {
    let mut store = Store::new();
    let s1 = store.insert(1);
    let s2 = store.insert(3);
    let s3 = store.insert(5);
    let mut p = scheduler(10);
    p.queue_frame(data(1, 30), &mut store, s1);
    p.queue_frame(data(3, 40), &mut store, s2);
    let (_, sent) = drain(&mut p, &mut store);
    assert!(sent.is_empty());
    assert!(p.is_pending_capacity(s1) && p.is_pending_capacity(s2));
    p.queue_frame(data(5, 1), &mut store, s3);
    assert_eq!(p.recv_window_update(WindowUpdate::new(0, 40)), Ok(Some(1)));
    let (_, sent) = drain(&mut p, &mut store);
    let ids: Vec<u32> = sent.iter().map(|f| describe(f).0).collect();
    assert_eq!(ids, vec![1, 3, 5]);
    assert_eq!(p.buffered_data(), 0);
}
