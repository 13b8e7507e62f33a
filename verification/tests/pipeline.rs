use tts_pipeline::pipeline::{
    channel_capacity, join_segments, silence_pad, single_buffer, AccumulateError, Accumulator,
    AudioFraming,
    AudioSegment, Delivery, Producer, ProducerStep, SynthesisError,
};

type Outcome = Result<Vec<u8>, SynthesisError>;

/// Runs a producer over the outcomes of its synthesis calls, as a caller
/// would, and returns what reaches the consumer and how many calls were made.
fn run(chunk_count: u32, outcomes: &[Outcome]) -> (Vec<Delivery>, usize) {
    let mut producer = Producer::new(chunk_count);
    let mut delivered = Vec::new();
    let mut calls = 0;
    while let ProducerStep::Synthesize { ordinal } = producer.next_step() {
        assert_eq!(ordinal as usize, calls);
        let outcome = outcomes[calls].clone();
        calls += 1;
        if let Some(delivery) = producer.on_synthesized(outcome) {
            delivered.push(delivery);
        }
    }
    (delivered, calls)
}

fn segment(ordinal: u32, bytes: &[u8]) -> Delivery {
    Delivery::Segment(AudioSegment { ordinal, bytes: bytes.to_vec() })
}

#[test]
fn chunks_are_synthesised_in_order() {
    let (delivered, calls) = run(3, &[Ok(vec![1]), Ok(vec![2, 2]), Ok(vec![3])]);
    assert_eq!(calls, 3);
    assert_eq!(delivered, vec![segment(0, &[1]), segment(1, &[2, 2]), segment(2, &[3])]);
}

#[test]
fn failure_of_the_second_of_three_chunks_ends_the_request() {
    let outcomes = [Ok(vec![1]), Err(SynthesisError::Status(500)), Ok(vec![3])];
    let (delivered, calls) = run(3, &outcomes);
    // The third chunk is never asked for.
    assert_eq!(calls, 2);
    assert_eq!(
        delivered,
        vec![segment(0, &[1]), Delivery::Failure(SynthesisError::Status(500))]
    );
    let failures = delivered.iter().filter(|d| matches!(d, Delivery::Failure(_))).count();
    assert_eq!(failures, 1);

    // A caller that gathers the request enqueues none of its audio.
    let mut accumulator = Accumulator::new();
    for delivery in delivered {
        assert_eq!(accumulator.accept(delivery), Ok(()));
    }
    assert_eq!(accumulator.len(), 0);
    assert_eq!(accumulator.finish(), None);
}

#[test]
fn failure_at_any_ordinal_leaves_no_later_segment() {
    for k in 0..5usize {
        let outcomes: Vec<Outcome> = (0..5)
            .map(|i| if i == k { Err(SynthesisError::Transport) } else { Ok(vec![i as u8]) })
            .collect();
        let (delivered, calls) = run(5, &outcomes);
        assert_eq!(calls, k + 1);
        assert_eq!(delivered.len(), k + 1);
        for (i, delivery) in delivered.iter().enumerate() {
            match delivery {
                Delivery::Segment(s) => {
                    assert!(i < k);
                    assert_eq!(s.ordinal as usize, i);
                }
                Delivery::Failure(e) => {
                    assert_eq!(i, k);
                    assert_eq!(*e, SynthesisError::Transport);
                }
            }
        }
    }
}

#[test]
fn request_without_chunks_finishes_at_once() {
    let mut producer = Producer::new(0);
    assert_eq!(producer.next_step(), ProducerStep::Finished);
    assert_eq!(producer.on_synthesized(Ok(vec![1])), None);
    assert_eq!(producer.next_step(), ProducerStep::Finished);
}

#[test]
fn producer_stops_when_the_consumer_is_gone() {
    let mut producer = Producer::new(3);
    assert_eq!(producer.next_step(), ProducerStep::Synthesize { ordinal: 0 });
    assert_eq!(producer.on_synthesized(Ok(vec![1])), Some(segment(0, &[1])));
    producer.on_consumer_gone();
    assert_eq!(producer.next_step(), ProducerStep::Finished);
    assert_eq!(producer.on_synthesized(Ok(vec![2])), None);
}

#[test]
fn outcomes_behind_the_end_are_ignored() {
    let mut producer = Producer::new(1);
    assert_eq!(producer.on_synthesized(Ok(vec![1])), Some(segment(0, &[1])));
    assert_eq!(producer.next_step(), ProducerStep::Finished);
    assert_eq!(producer.on_synthesized(Err(SynthesisError::Transport)), None);
    let mut producer = Producer::new(2);
    assert_eq!(
        producer.on_synthesized(Err(SynthesisError::MalformedResponse)),
        Some(Delivery::Failure(SynthesisError::MalformedResponse))
    );
    assert_eq!(producer.on_synthesized(Ok(vec![1])), None);
}

#[test]
fn accumulator_takes_segments_in_ordinal_order_only() {
    let mut a = Accumulator::new();
    assert_eq!(
        a.apply(AudioSegment { ordinal: 1, bytes: vec![1] }),
        Err(AccumulateError::OutOfOrder { expected: 0, got: 1 })
    );
    assert_eq!(a.len(), 0);
    assert_eq!(a.apply(AudioSegment { ordinal: 0, bytes: vec![10] }), Ok(()));
    assert_eq!(
        a.apply(AudioSegment { ordinal: 0, bytes: vec![11] }),
        Err(AccumulateError::OutOfOrder { expected: 1, got: 0 })
    );
    assert_eq!(
        a.apply(AudioSegment { ordinal: 2, bytes: vec![12] }),
        Err(AccumulateError::OutOfOrder { expected: 1, got: 2 })
    );
    assert_eq!(a.apply(AudioSegment { ordinal: 1, bytes: vec![20, 21] }), Ok(()));
    assert_eq!(a.len(), 2);
    assert_eq!(a.finish(), Some(vec![vec![10], vec![20, 21]]));
}

#[test]
fn failed_or_empty_request_gives_nothing() {
    assert_eq!(Accumulator::new().finish(), None);
    let mut a = Accumulator::new();
    assert_eq!(a.apply(AudioSegment { ordinal: 0, bytes: vec![1] }), Ok(()));
    a.fail();
    assert_eq!(a.len(), 0);
    assert_eq!(
        a.apply(AudioSegment { ordinal: 0, bytes: vec![1] }),
        Err(AccumulateError::Failed)
    );
    assert_eq!(a.finish(), None);
}

#[test]
fn segments_join_with_silence_between() {
    let segments = vec![vec![1, 2], vec![3], vec![], vec![4, 5]];
    assert_eq!(join_segments(&segments, &vec![]), vec![1, 2, 3, 4, 5]);
    assert_eq!(join_segments(&segments, &vec![0, 0]), vec![1, 2, 0, 0, 3, 0, 0, 0, 0, 4, 5]);
    assert_eq!(join_segments(&vec![vec![7, 8]], &vec![0, 0]), vec![7, 8]);
    assert_eq!(join_segments(&Vec::new(), &vec![0, 0]), Vec::<u8>::new());
}

#[test]
fn silence_is_three_tenths_of_a_second() {
    let pad = silence_pad(AudioFraming::RawPcm { sample_rate_hz: 24000, frame_bytes: 2 });
    assert_eq!(pad.len(), 14400);
    assert!(pad.iter().all(|b| *b == 0));
    assert_eq!(silence_pad(AudioFraming::RawPcm { sample_rate_hz: 8000, frame_bytes: 1 }).len(), 2400);
    assert_eq!(silence_pad(AudioFraming::RawPcm { sample_rate_hz: 44100, frame_bytes: 4 }).len(), 52920);
    assert_eq!(silence_pad(AudioFraming::RawPcm { sample_rate_hz: 3, frame_bytes: 2 }).len(), 0);
    assert_eq!(silence_pad(AudioFraming::RawPcm { sample_rate_hz: 0, frame_bytes: 2 }).len(), 0);
    assert!(silence_pad(AudioFraming::Container).is_empty());
}

#[test]
fn single_buffer_holds_every_segment_in_order() {
    let segments = vec![vec![1, 1], vec![2], vec![3, 3, 3]];
    assert_eq!(single_buffer(&segments, AudioFraming::Container), Some(vec![1, 1, 2, 3, 3, 3]));
    let pcm = AudioFraming::RawPcm { sample_rate_hz: 10, frame_bytes: 1 };
    assert_eq!(
        single_buffer(&segments, pcm),
        Some(vec![1, 1, 0, 0, 0, 2, 0, 0, 0, 3, 3, 3])
    );
    // One segment is the buffer as it stands, whatever the framing.
    assert_eq!(single_buffer(&vec![vec![9, 9]], AudioFraming::Container), Some(vec![9, 9]));
    assert_eq!(single_buffer(&vec![vec![9, 9]], pcm), Some(vec![9, 9]));
    assert_eq!(single_buffer(&Vec::new(), pcm), None);
    assert_eq!(single_buffer(&Vec::new(), AudioFraming::Container), None);
}

#[test]
fn single_buffer_of_a_long_text_is_not_its_first_chunk() {
    // A request of three chunks whose audio is gathered and joined.
    let (delivered, _) = run(3, &[Ok(vec![1]), Ok(vec![2, 2]), Ok(vec![3])]);
    let mut gathered = Accumulator::new();
    for delivery in delivered {
        assert_eq!(gathered.accept(delivery), Ok(()));
    }
    assert_eq!(gathered.len(), 3);
    assert_eq!(gathered.finish_joined(AudioFraming::Container), Some(vec![1, 2, 2, 3]));
}

#[test]
fn channel_has_room_for_every_chunk() {
    assert_eq!(channel_capacity(0), 1);
    assert_eq!(channel_capacity(1), 1);
    assert_eq!(channel_capacity(7), 7);
}

#[test]
fn gathered_request_joins_into_one_buffer() {
    let gather = |segments: &[&[u8]]| {
        let mut a = Accumulator::new();
        for (ordinal, bytes) in segments.iter().enumerate() {
            let segment = AudioSegment { ordinal: ordinal as u32, bytes: bytes.to_vec() };
            assert_eq!(a.apply(segment), Ok(()));
        }
        a
    };
    let pcm = AudioFraming::RawPcm { sample_rate_hz: 10, frame_bytes: 2 };
    assert_eq!(
        gather(&[&[1, 2], &[3]]).finish_joined(pcm),
        Some(vec![1, 2, 0, 0, 0, 0, 0, 0, 3])
    );
    assert_eq!(gather(&[&[1, 2], &[3]]).finish_joined(AudioFraming::Container), Some(vec![1, 2, 3]));
    assert_eq!(gather(&[&[7]]).finish_joined(pcm), Some(vec![7]));
    assert_eq!(gather(&[]).finish_joined(pcm), None);
    let mut failed = gather(&[&[1]]);
    failed.fail();
    assert_eq!(failed.finish_joined(pcm), None);
}
