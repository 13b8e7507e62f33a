use tts_pipeline::pipeline::AudioSegment;
use tts_pipeline::playback::{PlaybackQueue, QueueError, QueuedSegment, SessionState};

fn seg(ordinal: u32) -> AudioSegment {
    AudioSegment { ordinal, bytes: vec![ordinal as u8] }
}

fn live_queue() -> PlaybackQueue {
    let mut q = PlaybackQueue::new();
    q.attach_sink();
    q
}

/// Plays everything that can be played now.
fn drain(q: &mut PlaybackQueue) -> Vec<(u64, u32)> {
    let mut played = Vec::new();
    loop {
        q.track_ended();
        match q.poll() {
            Some(track) => played.push((track.request, track.segment.ordinal)),
            None => return played,
        }
    }
}

#[test]
fn queue_makes_no_sink() {
    let mut q = PlaybackQueue::new();
    assert!(!q.has_sink());
    assert_eq!(q.state(), SessionState::Idle);
    assert_eq!(q.begin_request(), Err(QueueError::NoSink));
    q.attach_sink();
    assert!(q.has_sink());
    assert_eq!(q.begin_request(), Ok(0));
    assert_eq!(q.begin_request(), Ok(1));
}

#[test]
fn session_goes_from_idle_to_playing_and_back() {
    let mut q = live_queue();
    let r = q.begin_request().unwrap();
    assert_eq!(q.poll(), None);
    assert_eq!(q.state(), SessionState::Idle);
    assert_eq!(q.submit(r, seg(0)), Ok(()));
    assert_eq!(q.submit(r, seg(1)), Ok(()));
    assert_eq!(q.waiting(), 2);
    // Nothing of an open request is played.
    assert_eq!(q.poll(), None);
    assert_eq!(q.state(), SessionState::Idle);
    assert_eq!(q.finish_request(r), Ok(()));
    assert_eq!(q.poll(), Some(QueuedSegment { request: r, segment: seg(0) }));
    assert_eq!(q.state(), SessionState::Playing);
    // One track at a time.
    assert_eq!(q.poll(), None);
    assert_eq!(q.waiting(), 1);
    q.track_ended();
    assert_eq!(q.state(), SessionState::Idle);
    assert_eq!(q.poll(), Some(QueuedSegment { request: r, segment: seg(1) }));
    q.track_ended();
    assert_eq!(q.poll(), None);
    assert_eq!(q.state(), SessionState::Idle);
}

#[test]
fn segments_are_taken_in_ordinal_order_only() {
    let mut q = live_queue();
    let r = q.begin_request().unwrap();
    assert_eq!(q.submit(r, seg(1)), Err(QueueError::OutOfOrder { expected: 0, got: 1 }));
    assert_eq!(q.submit(r, seg(0)), Ok(()));
    assert_eq!(q.submit(r, seg(0)), Err(QueueError::OutOfOrder { expected: 1, got: 0 }));
    assert_eq!(q.submit(r, seg(2)), Err(QueueError::OutOfOrder { expected: 1, got: 2 }));
    assert_eq!(q.submit(r, seg(1)), Ok(()));
    assert_eq!(q.submit(r + 1, seg(0)), Err(QueueError::UnknownRequest));
    assert_eq!(q.finish_request(r), Ok(()));
    assert_eq!(q.submit(r, seg(2)), Err(QueueError::UnknownRequest));
    assert_eq!(q.finish_request(r), Err(QueueError::UnknownRequest));
    assert_eq!(drain(&mut q), vec![(r, 0), (r, 1)]);
}

#[test]
fn second_request_waits_for_the_first() {
    let mut q = live_queue();
    let a = q.begin_request().unwrap();
    let b = q.begin_request().unwrap();
    // The later request delivers first, and is closed first.
    assert_eq!(q.submit(b, seg(0)), Ok(()));
    assert_eq!(q.submit(b, seg(1)), Ok(()));
    assert_eq!(q.finish_request(b), Ok(()));
    assert_eq!(drain(&mut q), vec![]);
    assert_eq!(q.submit(a, seg(0)), Ok(()));
    assert_eq!(drain(&mut q), vec![]);
    assert_eq!(q.submit(a, seg(1)), Ok(()));
    assert_eq!(q.finish_request(a), Ok(()));
    assert_eq!(drain(&mut q), vec![(a, 0), (a, 1), (b, 0), (b, 1)]);
}

#[test]
fn interleaved_producers_do_not_interleave_playback() {
    let mut q = live_queue();
    let a = q.begin_request().unwrap();
    let b = q.begin_request().unwrap();
    let c = q.begin_request().unwrap();
    let mut played = Vec::new();
    for ordinal in 0..4 {
        assert_eq!(q.submit(c, seg(ordinal)), Ok(()));
        assert_eq!(q.submit(a, seg(ordinal)), Ok(()));
        assert_eq!(q.submit(b, seg(ordinal)), Ok(()));
        played.extend(drain(&mut q));
    }
    assert!(played.is_empty());
    assert_eq!(q.finish_request(b), Ok(()));
    played.extend(drain(&mut q));
    assert!(played.is_empty());
    assert_eq!(q.finish_request(a), Ok(()));
    played.extend(drain(&mut q));
    assert_eq!(played.len(), 8);
    assert_eq!(q.finish_request(c), Ok(()));
    played.extend(drain(&mut q));
    let mut expected = Vec::new();
    for r in [a, b, c] {
        for ordinal in 0..4 {
            expected.push((r, ordinal));
        }
    }
    assert_eq!(played, expected);
    let mut sorted = played.clone();
    sorted.sort();
    assert_eq!(played, sorted);
}

#[test]
fn aborted_request_plays_nothing() {
    let mut q = live_queue();
    let a = q.begin_request().unwrap();
    let b = q.begin_request().unwrap();
    assert_eq!(q.submit(a, seg(0)), Ok(()));
    assert_eq!(q.submit(a, seg(1)), Ok(()));
    assert_eq!(q.submit(b, seg(0)), Ok(()));
    // The first request is still open when its third chunk fails: nothing
    // of it has been played, and nothing of it is.
    assert_eq!(drain(&mut q), vec![]);
    assert_eq!(q.abort_request(a), Ok(()));
    assert_eq!(q.waiting(), 1);
    assert_eq!(q.abort_request(a), Err(QueueError::UnknownRequest));
    assert_eq!(q.submit(a, seg(2)), Err(QueueError::UnknownRequest));
    assert_eq!(drain(&mut q), vec![]);
    assert_eq!(q.finish_request(b), Ok(()));
    assert_eq!(drain(&mut q), vec![(b, 0)]);
}

#[test]
fn closed_request_cannot_be_given_up() {
    let mut q = live_queue();
    let a = q.begin_request().unwrap();
    assert_eq!(q.submit(a, seg(0)), Ok(()));
    assert_eq!(q.finish_request(a), Ok(()));
    assert_eq!(q.abort_request(a), Err(QueueError::UnknownRequest));
    assert_eq!(drain(&mut q), vec![(a, 0)]);
}

#[test]
fn lost_sink_drops_everything() {
    let mut q = live_queue();
    let a = q.begin_request().unwrap();
    assert_eq!(q.submit(a, seg(0)), Ok(()));
    assert_eq!(q.submit(a, seg(1)), Ok(()));
    let b = q.enqueue_request(vec![vec![7]]).unwrap();
    assert_eq!(b, a + 1);
    assert_eq!(q.finish_request(a), Ok(()));
    assert!(q.poll().is_some());
    q.detach_sink();
    assert_eq!(q.state(), SessionState::Idle);
    assert_eq!(q.waiting(), 0);
    assert_eq!(q.poll(), None);
    assert_eq!(q.submit(a, seg(2)), Err(QueueError::UnknownRequest));
    assert_eq!(q.begin_request(), Err(QueueError::NoSink));
    q.attach_sink();
    // Request numbers are not used twice.
    assert_eq!(q.begin_request(), Ok(b + 1));
}

#[test]
fn whole_request_is_queued_complete_and_in_order() {
    let mut q = live_queue();
    let earlier = q.begin_request().unwrap();
    assert_eq!(q.submit(earlier, seg(0)), Ok(()));
    assert_eq!(q.finish_request(earlier), Ok(()));

    let request = q.enqueue_request(vec![vec![10], vec![11, 11], vec![], vec![13]]).unwrap();
    assert_eq!(request, earlier + 1);
    assert_eq!(q.waiting(), 5);
    // The request is closed: nothing can be added to it.
    assert_eq!(q.submit(request, seg(4)), Err(QueueError::UnknownRequest));

    let mut played = Vec::new();
    loop {
        q.track_ended();
        match q.poll() {
            Some(track) => played.push((track.request, track.segment.ordinal, track.segment.bytes)),
            None => break,
        }
    }
    assert_eq!(
        played,
        vec![
            (earlier, 0, vec![0]),
            (request, 0, vec![10]),
            (request, 1, vec![11, 11]),
            (request, 2, vec![]),
            (request, 3, vec![13]),
        ]
    );
}

#[test]
fn whole_requests_do_not_interleave() {
    let mut q = live_queue();
    let open = q.begin_request().unwrap();
    let a = q.enqueue_request(vec![vec![1], vec![2]]).unwrap();
    let b = q.enqueue_request(vec![vec![3]]).unwrap();
    // An earlier request is still open: the whole requests wait behind it.
    assert_eq!(drain(&mut q), vec![]);
    assert_eq!(q.submit(open, seg(0)), Ok(()));
    assert_eq!(q.finish_request(open), Ok(()));
    assert_eq!(drain(&mut q), vec![(open, 0), (a, 0), (a, 1), (b, 0)]);
}

#[test]
fn whole_request_needs_a_sink() {
    let mut q = PlaybackQueue::new();
    assert_eq!(q.enqueue_request(vec![vec![1]]), Err(QueueError::NoSink));
    assert_eq!(q.waiting(), 0);
    q.attach_sink();
    // A request without segments is opened and closed, and plays nothing.
    assert_eq!(q.enqueue_request(Vec::new()), Ok(0));
    assert_eq!(q.waiting(), 0);
    assert_eq!(q.enqueue_request(vec![vec![1]]), Ok(1));
}
