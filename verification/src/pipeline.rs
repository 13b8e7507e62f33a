//! The streaming synthesis pipeline: in which order the chunks of one request
//! are synthesised and handed on, and when production stops.
//!
//! Chunks are synthesised one after the other. Each result is handed to the
//! consumer before the next chunk is started, so that the consumer has the
//! first audio in hand while later chunks are still being made. A failed chunk is reported once
//! and ends the request; so does a consumer that has gone away. The
//! synthesis and the hand-over are the caller's work: after each, it reports
//! the outcome to the `Producer` and asks what to do next.

use vstd::prelude::*;

verus! {

/// Why a chunk could not be synthesised.
#[derive(Debug, Clone, Copy, PartialEq, Eq, Structural)]
pub enum SynthesisError {
    /// The backend could not be reached, or the exchange broke off.
    Transport,
    /// The backend answered with a status that is no success.
    Status(u16),
    /// The backend's answer could not be read.
    MalformedResponse,
}

/// The audio of one chunk.
#[derive(Debug, PartialEq, Eq)]
pub struct AudioSegment {
    /// The ordinal of the chunk that the audio was made from.
    pub ordinal: u32,
    /// The audio, as the backend returned it.
    pub bytes: Vec<u8>,
}

/// What the producer hands to the consumer.
#[derive(Debug, PartialEq, Eq)]
pub enum Delivery {
    /// The audio of the next chunk.
    Segment(AudioSegment),
    /// The request has failed; nothing follows.
    Failure(SynthesisError),
}

/// What a delivery holds, as plain values.
pub enum DeliveryView {
    Segment { ordinal: nat, bytes: Seq<u8> },
    Failure(SynthesisError),
}

impl View for Delivery {
    type V = DeliveryView;

    open spec fn view(&self) -> DeliveryView {
        match *self {
            Delivery::Segment(segment) => DeliveryView::Segment {
                ordinal: segment.ordinal as nat,
                bytes: segment.bytes@,
            },
            Delivery::Failure(error) => DeliveryView::Failure(error),
        }
    }
}

/// What the caller is to do next.
#[derive(Debug, Clone, Copy, PartialEq, Eq, Structural)]
pub enum ProducerStep {
    /// Synthesise the chunk with this ordinal and report the outcome.
    Synthesize { ordinal: u32 },
    /// Nothing is left to do for this request.
    Finished,
}

/// The state of production for one request.
pub struct ProducerView {
    /// Number of chunks of the request.
    pub total: nat,
    /// Ordinal of the next chunk to synthesise.
    pub next: nat,
    /// Whether production was stopped before all chunks were made.
    pub halted: bool,
}

/// What the caller reports to the producer.
pub enum ProducerEvent {
    /// The chunk that was asked for has been synthesised, or has failed.
    Synthesized(Result<Seq<u8>, SynthesisError>),
    /// The consumer has gone away: the last delivery could not be handed over.
    ConsumerGone,
}

/// What the caller is to do in state `s`.
pub open spec fn next_step_spec(s: ProducerView) -> ProducerStep {
    if s.halted || s.next >= s.total {
        ProducerStep::Finished
    } else {
        ProducerStep::Synthesize { ordinal: s.next as u32 }
    }
}

/// The state after an event, and what is to be handed to the consumer.
///
/// An outcome that nobody asked for, reported to a producer that has
/// finished, changes nothing and delivers nothing.
pub open spec fn producer_step(s: ProducerView, event: ProducerEvent) -> (
    ProducerView,
    Option<DeliveryView>,
) {
    match event {
        ProducerEvent::ConsumerGone => (ProducerView { halted: true, ..s }, None),
        ProducerEvent::Synthesized(outcome) => if s.halted || s.next >= s.total {
            (s, None)
        } else {
            match outcome {
                Ok(bytes) => (
                    ProducerView { next: s.next + 1, ..s },
                    Some(DeliveryView::Segment { ordinal: s.next, bytes }),
                ),
                Err(error) => (
                    ProducerView { halted: true, ..s },
                    Some(DeliveryView::Failure(error)),
                ),
            }
        },
    }
}

/// The producer of one request's audio.
#[derive(Debug)]
pub struct Producer {
    total: u32,
    next: u32,
    halted: bool,
}

impl View for Producer {
    type V = ProducerView;

    closed spec fn view(&self) -> ProducerView {
        ProducerView { total: self.total as nat, next: self.next as nat, halted: self.halted }
    }
}

impl Producer {
    #[verifier::type_invariant]
    spec fn well_formed(self) -> bool {
        self.next <= self.total
    }

    /// A producer for a request of `chunk_count` chunks, none made yet.
    pub fn new(chunk_count: u32) -> (p: Producer)
        ensures
            p@ == (ProducerView { total: chunk_count as nat, next: 0, halted: false }),
    {
        Producer { total: chunk_count, next: 0, halted: false }
    }

    /// What to do next: synthesise the next chunk, unless all are made or
    /// production has been stopped.
    pub fn next_step(&self) -> (step: ProducerStep)
        ensures
            step == next_step_spec(self@),
            self@.next <= self@.total <= u32::MAX,
    {
        proof {
            use_type_invariant(self);
        }
        if self.halted || self.next >= self.total {
            ProducerStep::Finished
        } else {
            ProducerStep::Synthesize { ordinal: self.next }
        }
    }

    /// Takes the outcome of the synthesis that `next_step` asked for and
    /// returns what is to be handed to the consumer: the segment, or the
    /// failure, after which the producer has finished.
    pub fn on_synthesized(&mut self, outcome: Result<Vec<u8>, SynthesisError>) -> (delivery: Option<
        Delivery,
    >)
        ensures
            (final(self)@, match delivery {
                Some(d) => Some(d@),
                None => None,
            }) == producer_step(
                old(self)@,
                ProducerEvent::Synthesized(
                    match outcome {
                        Ok(bytes) => Ok(bytes@),
                        Err(error) => Err(error),
                    },
                ),
            ),
    {
        proof {
            use_type_invariant(&*self);
        }
        if self.halted || self.next >= self.total {
            return None;
        }
        match outcome {
            Ok(bytes) => {
                let ordinal = self.next;
                self.next = ordinal + 1;
                Some(Delivery::Segment(AudioSegment { ordinal, bytes }))
            },
            Err(error) => {
                self.halted = true;
                Some(Delivery::Failure(error))
            },
        }
    }

    /// Takes note that the consumer has gone away: production stops.
    pub fn on_consumer_gone(&mut self)
        ensures
            (final(self)@, None::<DeliveryView>) == producer_step(
                old(self)@,
                ProducerEvent::ConsumerGone,
            ),
    {
        proof {
            use_type_invariant(&*self);
        }
        self.halted = true;
    }
}

/// The state of a producer of `total` chunks after a run of events, and
/// everything that it has handed to the consumer, in order.
pub open spec fn producer_run(total: nat, events: Seq<ProducerEvent>) -> (
    ProducerView,
    Seq<DeliveryView>,
)
    decreases events.len(),
{
    if events.len() == 0 {
        (ProducerView { total, next: 0, halted: false }, Seq::empty())
    } else {
        let (before, delivered) = producer_run(total, events.drop_last());
        let (after, delivery) = producer_step(before, events.last());
        (
            after,
            match delivery {
                Some(d) => delivered.push(d),
                None => delivered,
            },
        )
    }
}

/// The ordinal of a delivered segment; none for a failure.
pub open spec fn segment_ordinal(d: DeliveryView) -> Option<nat> {
    match d {
        DeliveryView::Segment { ordinal, .. } => Some(ordinal),
        DeliveryView::Failure(_) => None,
    }
}

/// What holds of a producer and its deliveries at any moment.
pub open spec fn producer_inv(s: ProducerView, delivered: Seq<DeliveryView>) -> bool {
    &&& s.next <= s.total
    &&& forall|i: int|
        0 <= i < delivered.len() && i < s.next ==> segment_ordinal(#[trigger] delivered[i])
            == Some(i as nat)
    &&& delivered.len() == s.next || (delivered.len() == s.next + 1 && s.halted
        && delivered.last() is Failure)
}

/// The invariant holds after any run of events.
pub proof fn lemma_producer_inv(total: nat, events: Seq<ProducerEvent>)
    ensures
        producer_inv(producer_run(total, events).0, producer_run(total, events).1),
        producer_run(total, events).0.total == total,
    decreases events.len(),
{
    if events.len() > 0 {
        lemma_producer_inv(total, events.drop_last());
    }
}

/// Segments reach the consumer in the order of their ordinals, which run
/// from 0 without a gap, whatever the outcomes and whenever they come: the
/// delivery at position `i` is the segment with ordinal `i`, unless it is
/// the failure that ends the run.
pub proof fn law_segments_in_ordinal_order(total: nat, events: Seq<ProducerEvent>)
    ensures
        forall|i: int|
            #![trigger producer_run(total, events).1[i]]
            {
                let delivered = producer_run(total, events).1;
                0 <= i < delivered.len() && delivered[i] is Segment ==> segment_ordinal(
                    delivered[i],
                ) == Some(i as nat) && i < total
            },
        forall|i: int, j: int|
            #![trigger producer_run(total, events).1[i], producer_run(total, events).1[j]]
            {
                let delivered = producer_run(total, events).1;
                0 <= i < j < delivered.len() && delivered[j] is Segment ==> delivered[i] is Segment
                    && segment_ordinal(delivered[i])->0 < segment_ordinal(delivered[j])->0
            },
{
    lemma_producer_inv(total, events);
}

/// A failure is reported once, as the last delivery: the chunk at the
/// ordinal of the failure and every chunk behind it yield no segment, and
/// the producer has finished.
pub proof fn law_nothing_follows_a_failure(total: nat, events: Seq<ProducerEvent>, k: int)
    requires
        0 <= k < producer_run(total, events).1.len(),
        producer_run(total, events).1[k] is Failure,
    ensures
        k == producer_run(total, events).1.len() - 1,
        forall|i: int|
            #![trigger producer_run(total, events).1[i]]
            {
                let delivered = producer_run(total, events).1;
                0 <= i < delivered.len() && delivered[i] is Segment ==> segment_ordinal(
                    delivered[i],
                )->0 < k
            },
        next_step_spec(producer_run(total, events).0) == ProducerStep::Finished,
{
    lemma_producer_inv(total, events);
}

/// The room that the channel between producer and consumer has: one place
/// for each chunk, so that the producer never waits for the consumer, and at
/// least one, since a channel without room cannot be made.
pub fn channel_capacity(chunk_count: usize) -> (capacity: usize)
    ensures
        capacity == if chunk_count == 0 {
            1
        } else {
            chunk_count
        },
{
    if chunk_count == 0 {
        1
    } else {
        chunk_count
    }
}

/// How a backend frames its audio.
#[derive(Debug, Clone, Copy, PartialEq, Eq, Structural)]
pub enum AudioFraming {
    /// Bare samples: segments are set apart by a short silence when joined.
    RawPcm { sample_rate_hz: u32, frame_bytes: u16 },
    /// A container format that carries its own continuity: nothing is added.
    Container,
}

/// Length of the silence between two joined segments, in milliseconds.
pub const SILENCE_MILLIS: u64 = 300;

/// Number of bytes of silence between two joined segments.
pub open spec fn silence_len(framing: AudioFraming) -> nat {
    match framing {
        AudioFraming::RawPcm { sample_rate_hz, frame_bytes } => ((sample_rate_hz as nat
            * SILENCE_MILLIS as nat) / 1000) * frame_bytes as nat,
        AudioFraming::Container => 0,
    }
}

/// The silence between two joined segments: zero bytes for the frames of
/// `SILENCE_MILLIS` milliseconds of bare samples, nothing for a container
/// format.
pub open spec fn silence(framing: AudioFraming) -> Seq<u8> {
    Seq::new(silence_len(framing), |i: int| 0u8)
}

/// The silence that is put between two joined segments.
pub fn silence_pad(framing: AudioFraming) -> (pad: Vec<u8>)
    ensures
        pad@ == silence(framing),
{
    let len: u64 = match framing {
        AudioFraming::RawPcm { sample_rate_hz, frame_bytes } => {
            let frames: u64 = (sample_rate_hz as u64 * SILENCE_MILLIS) / 1000;
            assert(frames * (frame_bytes as u64) <= u64::MAX) by (nonlinear_arith)
                requires
                    frames <= 0x1_0000_0000,
                    frame_bytes <= 0xFFFF,
            ;
            frames * (frame_bytes as u64)
        },
        AudioFraming::Container => 0,
    };
    let mut pad: Vec<u8> = Vec::new();
    while (pad.len() as u64) < len
        invariant
            pad.len() <= len,
            pad@ == Seq::new(pad.len() as nat, |i: int| 0u8),
        decreases len - pad.len(),
    {
        pad.push(0u8);
        assert(pad@ =~= Seq::new(pad.len() as nat, |i: int| 0u8));
    }
    pad
}

/// The segments in order as one buffer, with `pad` between each two.
pub open spec fn joined(segments: Seq<Seq<u8>>, pad: Seq<u8>) -> Seq<u8>
    decreases segments.len(),
{
    if segments.len() == 0 {
        Seq::empty()
    } else if segments.len() == 1 {
        segments[0]
    } else {
        joined(segments.drop_last(), pad) + pad + segments.last()
    }
}

/// The byte sequences of a list of buffers.
pub open spec fn buffers_of(buffers: Seq<Vec<u8>>) -> Seq<Seq<u8>> {
    Seq::new(buffers.len(), |k: int| buffers[k]@)
}

/// Appends `bytes` to `buffer`.
fn append_bytes(buffer: &mut Vec<u8>, bytes: &Vec<u8>)
    ensures
        final(buffer)@ == old(buffer)@ + bytes@,
{
    let mut i: usize = 0;
    while i < bytes.len()
        invariant
            i <= bytes.len(),
            buffer@ == old(buffer)@ + bytes@.take(i as int),
        decreases bytes.len() - i,
    {
        buffer.push(bytes[i]);
        i += 1;
        assert(buffer@ =~= old(buffer)@ + bytes@.take(i as int));
    }
    assert(bytes@.take(i as int) == bytes@);
}

/// Joins the segments of a request into one buffer, in order, with `pad`
/// between each two.
pub fn join_segments(segments: &Vec<Vec<u8>>, pad: &Vec<u8>) -> (buffer: Vec<u8>)
    ensures
        buffer@ == joined(buffers_of(segments@), pad@),
{
    let mut buffer: Vec<u8> = Vec::new();
    let ghost all = buffers_of(segments@);
    let mut k: usize = 0;
    while k < segments.len()
        invariant
            k <= segments.len(),
            all == buffers_of(segments@),
            buffer@ == joined(all.take(k as int), pad@),
        decreases segments.len() - k,
    {
        if k > 0 {
            append_bytes(&mut buffer, pad);
        }
        append_bytes(&mut buffer, &segments[k]);
        proof {
            let now = all.take(k + 1);
            assert(now.drop_last() == all.take(k as int));
            assert(now.last() == segments[k as int]@);
            if k == 0 {
                assert(buffer@ =~= now[0]);
            }
        }
        k += 1;
    }
    assert(all.take(k as int) == all);
    buffer
}

/// Why a delivery was not taken.
#[derive(Debug, Clone, Copy, PartialEq, Eq, Structural)]
pub enum AccumulateError {
    /// The segment is not the next in ordinal order.
    OutOfOrder { expected: u32, got: u32 },
    /// The request has failed already; nothing more is taken.
    Failed,
}

/// What has been gathered of one request.
pub struct AccumulatorView {
    /// The audio of the segments taken so far, in ordinal order.
    pub segments: Seq<Seq<u8>>,
    /// Whether the request has failed.
    pub failed: bool,
}

/// Gathers the segments of one request for callers that want them all at
/// once. Segments are taken in ordinal order only, and a failed request
/// gives none of them.
#[derive(Debug)]
pub struct Accumulator {
    segments: Vec<Vec<u8>>,
    failed: bool,
}

impl View for Accumulator {
    type V = AccumulatorView;

    closed spec fn view(&self) -> AccumulatorView {
        AccumulatorView { segments: buffers_of(self.segments@), failed: self.failed }
    }
}

/// What applying a segment with `ordinal` gives: it is taken where it is the
/// next in order and the request has not failed.
pub open spec fn apply_spec(a: AccumulatorView, ordinal: u32, bytes: Seq<u8>) -> (
    AccumulatorView,
    Result<(), AccumulateError>,
) {
    if a.failed {
        (a, Err(AccumulateError::Failed))
    } else if ordinal as nat != a.segments.len() {
        (
            a,
            Err(
                AccumulateError::OutOfOrder {
                    expected: if a.segments.len() <= u32::MAX {
                        a.segments.len() as u32
                    } else {
                        u32::MAX
                    },
                    got: ordinal,
                },
            ),
        )
    } else {
        (AccumulatorView { segments: a.segments.push(bytes), ..a }, Ok(()))
    }
}

/// What the gathered request gives in the end: its segments, or nothing
/// where it failed or had none.
pub open spec fn finish_spec(a: AccumulatorView) -> Option<Seq<Seq<u8>>> {
    if a.failed || a.segments.len() == 0 {
        None
    } else {
        Some(a.segments)
    }
}

impl Accumulator {
    /// An accumulator that has taken nothing.
    pub fn new() -> (a: Accumulator)
        ensures
            a@ == (AccumulatorView { segments: Seq::empty(), failed: false }),
    {
        let a = Accumulator { segments: Vec::new(), failed: false };
        assert(buffers_of(a.segments@) =~= Seq::<Seq<u8>>::empty());
        a
    }

    /// Takes the next segment. One that is not the next in ordinal order is
    /// refused and changes nothing.
    pub fn apply(&mut self, segment: AudioSegment) -> (r: Result<(), AccumulateError>)
        ensures
            (final(self)@, r) == apply_spec(old(self)@, segment.ordinal, segment.bytes@),
    {
        if self.failed {
            return Err(AccumulateError::Failed);
        }
        let count = self.segments.len();
        if count > u32::MAX as usize || segment.ordinal as usize != count {
            let expected: u32 = if count <= u32::MAX as usize {
                count as u32
            } else {
                u32::MAX
            };
            return Err(AccumulateError::OutOfOrder { expected, got: segment.ordinal });
        }
        let ghost before = self@.segments;
        self.segments.push(segment.bytes);
        assert(buffers_of(self.segments@) =~= before.push(segment.bytes@));
        Ok(())
    }

    /// Takes note that the request has failed: what was gathered is dropped.
    pub fn fail(&mut self)
        ensures
            final(self)@ == (AccumulatorView { segments: Seq::empty(), failed: true }),
    {
        self.segments = Vec::new();
        self.failed = true;
        assert(buffers_of(self.segments@) =~= Seq::<Seq<u8>>::empty());
    }

    /// Takes what the producer delivers: a segment is applied, a failure
    /// fails the request.
    pub fn accept(&mut self, delivery: Delivery) -> (r: Result<(), AccumulateError>)
        ensures
            final(self)@ == accept_spec(old(self)@, delivery@),
            match delivery {
                Delivery::Segment(segment) => (final(self)@, r) == apply_spec(
                    old(self)@,
                    segment.ordinal,
                    segment.bytes@,
                ),
                Delivery::Failure(_) => final(self)@ == (AccumulatorView {
                    segments: Seq::empty(),
                    failed: true,
                }) && r is Ok,
            },
    {
        match delivery {
            Delivery::Segment(segment) => self.apply(segment),
            Delivery::Failure(_) => {
                self.fail();
                Ok(())
            },
        }
    }

    /// Number of segments taken so far.
    pub fn len(&self) -> (n: usize)
        ensures
            n == self@.segments.len(),
    {
        self.segments.len()
    }

    /// The audio of the request as one buffer: its segments in order, set
    /// apart by the silence that the framing asks for. `None` for a request
    /// that has failed or has no segment.
    pub fn finish_joined(self, framing: AudioFraming) -> (r: Option<Vec<u8>>)
        ensures
            (match r {
                Some(buffer) => Some(buffer@),
                None => None,
            }) == match finish_spec(self@) {
                Some(segments) => Some(joined(segments, silence(framing))),
                None => None,
            },
    {
        if self.failed {
            None
        } else {
            single_buffer(&self.segments, framing)
        }
    }

    /// The segments of the request, for a request that has not failed and
    /// has at least one.
    pub fn finish(self) -> (r: Option<Vec<Vec<u8>>>)
        ensures
            (match r {
                Some(segments) => Some(buffers_of(segments@)),
                None => None,
            }) == finish_spec(self@),
    {
        if self.failed || self.segments.len() == 0 {
            None
        } else {
            Some(self.segments)
        }
    }
}

/// The audio of a request as one buffer: every segment, in ordinal order,
/// with the silence of the framing between each two; nothing for a request
/// without segments.
pub open spec fn single_buffer_spec(segments: Seq<Seq<u8>>, framing: AudioFraming) -> Option<
    Seq<u8>,
> {
    if segments.len() == 0 {
        None
    } else {
        Some(joined(segments, silence(framing)))
    }
}

/// Joins the segments of a request into the one buffer that a caller plays
/// who wants the audio of a request in one piece. No segment is left out:
/// the buffer is all of them, in order; between each two stands the silence
/// that the framing asks for.
pub fn single_buffer(segments: &Vec<Vec<u8>>, framing: AudioFraming) -> (r: Option<Vec<u8>>)
    ensures
        (match r {
            Some(buffer) => Some(buffer@),
            None => None,
        }) == single_buffer_spec(buffers_of(segments@), framing),
        segments@.len() == 1 ==> r is Some && r->0@ == segments@[0]@,
        segments@.len() > 0 && framing == AudioFraming::Container ==> r is Some && r->0@
            == buffers_of(segments@).flatten(),
{
    proof {
        if framing == AudioFraming::Container {
            assert(silence(framing) =~= Seq::<u8>::empty());
            law_joined_without_pad_is_concatenation(buffers_of(segments@));
        }
    }
    if segments.len() == 0 {
        None
    } else {
        let pad = silence_pad(framing);
        Some(join_segments(segments, &pad))
    }
}

/// Joined without a pad, the segments are their concatenation.
pub proof fn law_joined_without_pad_is_concatenation(segments: Seq<Seq<u8>>)
    ensures
        joined(segments, Seq::empty()) == segments.flatten(),
    decreases segments.len(),
{
    segments.lemma_flatten_and_flatten_alt_are_equivalent();
    if segments.len() == 0 {
    } else if segments.len() == 1 {
        assert(segments.drop_last().flatten_alt() =~= Seq::<u8>::empty());
        assert(segments.flatten_alt() =~= segments[0]);
    } else {
        law_joined_without_pad_is_concatenation(segments.drop_last());
        segments.drop_last().lemma_flatten_and_flatten_alt_are_equivalent();
        assert(joined(segments, Seq::empty()) =~= segments.drop_last().flatten_alt()
            + segments.last());
    }
}

/// Nothing of a request is lost in its one buffer: the buffer is as long as
/// all segments together and the silence between them.
pub proof fn law_joined_length(segments: Seq<Seq<u8>>, pad: Seq<u8>)
    ensures
        joined(segments, pad).len() == segments.flatten().len() + if segments.len() > 0 {
            (segments.len() - 1) * pad.len()
        } else {
            0
        },
    decreases segments.len(),
{
    segments.lemma_flatten_and_flatten_alt_are_equivalent();
    let p = pad.len() as int;
    if segments.len() == 0 {
    } else if segments.len() == 1 {
        assert(segments.drop_last().flatten_alt() =~= Seq::<u8>::empty());
        assert(segments.flatten_alt() =~= segments[0]);
        assert(0 * p == 0);
    } else {
        let earlier = segments.drop_last();
        let n = segments.len() as int;
        law_joined_length(earlier, pad);
        earlier.lemma_flatten_and_flatten_alt_are_equivalent();
        assert(segments.flatten_alt() == earlier.flatten_alt() + segments.last());
        assert(joined(segments, pad) == joined(earlier, pad) + pad + segments.last());
        assert((n - 2) * p + p == (n - 1) * p) by (nonlinear_arith);
    }
}

/// What a delivery does to what has been gathered: a failure fails the
/// request and drops what was gathered; a segment is taken where it is the
/// next in order and the request has not failed.
pub open spec fn accept_spec(a: AccumulatorView, d: DeliveryView) -> AccumulatorView {
    match d {
        DeliveryView::Failure(_) => AccumulatorView { segments: Seq::empty(), failed: true },
        DeliveryView::Segment { ordinal, bytes } => if !a.failed && ordinal == a.segments.len() {
            AccumulatorView { segments: a.segments.push(bytes), ..a }
        } else {
            a
        },
    }
}

/// What has been gathered once a run of deliveries has been accepted.
pub open spec fn accumulate(deliveries: Seq<DeliveryView>) -> AccumulatorView
    decreases deliveries.len(),
{
    if deliveries.len() == 0 {
        AccumulatorView { segments: Seq::empty(), failed: false }
    } else {
        accept_spec(accumulate(deliveries.drop_last()), deliveries.last())
    }
}

/// The audio of a delivered segment; nothing for a failure.
pub open spec fn delivered_bytes(d: DeliveryView) -> Seq<u8> {
    match d {
        DeliveryView::Segment { bytes, .. } => bytes,
        DeliveryView::Failure(_) => Seq::empty(),
    }
}

/// Segments that come in ordinal order from 0 are all gathered.
proof fn lemma_accumulate_in_order(deliveries: Seq<DeliveryView>)
    requires
        forall|i: int|
            0 <= i < deliveries.len() ==> segment_ordinal(#[trigger] deliveries[i]) == Some(
                i as nat,
            ),
    ensures
        !accumulate(deliveries).failed,
        accumulate(deliveries).segments == Seq::new(
            deliveries.len(),
            |i: int| delivered_bytes(deliveries[i]),
        ),
    decreases deliveries.len(),
{
    if deliveries.len() > 0 {
        let earlier = deliveries.drop_last();
        assert forall|i: int| 0 <= i < earlier.len() implies segment_ordinal(
            #[trigger] earlier[i],
        ) == Some(i as nat) by {
            assert(earlier[i] == deliveries[i]);
        }
        lemma_accumulate_in_order(earlier);
        assert(segment_ordinal(deliveries[deliveries.len() - 1]) == Some(
            (deliveries.len() - 1) as nat,
        ));
        assert(accumulate(deliveries).segments =~= Seq::new(
            deliveries.len(),
            |i: int| delivered_bytes(deliveries[i]),
        ));
    } else {
        assert(accumulate(deliveries).segments =~= Seq::new(
            deliveries.len(),
            |i: int| delivered_bytes(deliveries[i]),
        ));
    }
}

/// A request is gathered whole or not at all: where the producer has
/// reported a failure, the gathered request gives no audio, whatever was
/// delivered before; where it has not, every segment that it delivered is
/// gathered, in order.
pub proof fn law_request_is_all_or_nothing(total: nat, events: Seq<ProducerEvent>)
    ensures
        ({
            let delivered = producer_run(total, events).1;
            let gathered = accumulate(delivered);
            if delivered.len() > 0 && delivered.last() is Failure {
                finish_spec(gathered) is None && gathered.segments.len() == 0
            } else {
                !gathered.failed && gathered.segments == Seq::new(
                    delivered.len(),
                    |i: int| delivered_bytes(delivered[i]),
                )
            }
        }),
{
    lemma_producer_inv(total, events);
    let delivered = producer_run(total, events).1;
    if delivered.len() > 0 && delivered.last() is Failure {
    } else {
        lemma_accumulate_in_order(delivered);
    }
}

/// The reports of a request whose chunks are all synthesised: for each
/// chunk, in order, its audio.
pub open spec fn all_synthesized(audio: Seq<Seq<u8>>) -> Seq<ProducerEvent> {
    Seq::new(audio.len(), |i: int| ProducerEvent::Synthesized(Ok(audio[i])))
}

/// The deliveries of a request whose chunks are all synthesised: for each
/// chunk, in order, the segment of its ordinal with its audio.
pub open spec fn all_segments_of(audio: Seq<Seq<u8>>) -> Seq<DeliveryView> {
    Seq::new(
        audio.len(),
        |i: int| DeliveryView::Segment { ordinal: i as nat, bytes: audio[i] },
    )
}

proof fn lemma_synthesized_prefix(total: nat, audio: Seq<Seq<u8>>, count: int)
    requires
        audio.len() == total,
        0 <= count <= total,
    ensures
        producer_run(total, all_synthesized(audio).take(count)) == (
            ProducerView { total, next: count as nat, halted: false },
            all_segments_of(audio).take(count),
        ),
    decreases count,
{
    let events = all_synthesized(audio).take(count);
    if count == 0 {
        assert(all_segments_of(audio).take(0) =~= Seq::<DeliveryView>::empty());
    } else {
        lemma_synthesized_prefix(total, audio, count - 1);
        assert(events.drop_last() =~= all_synthesized(audio).take(count - 1));
        assert(events.last() == ProducerEvent::Synthesized(Ok(audio[count - 1])));
        assert(all_segments_of(audio).take(count - 1).push(
            DeliveryView::Segment { ordinal: (count - 1) as nat, bytes: audio[count - 1] },
        ) =~= all_segments_of(audio).take(count));
    }
}

/// No chunk is left out: where every chunk of a request is synthesised, the
/// consumer is handed one segment for each chunk, in order, with the audio
/// of that chunk; the producer has then finished; and the gathered request
/// is the audio of all chunks, in order.
pub proof fn law_every_chunk_is_delivered(audio: Seq<Seq<u8>>)
    ensures
        producer_run(audio.len(), all_synthesized(audio)).1 == all_segments_of(audio),
        next_step_spec(producer_run(audio.len(), all_synthesized(audio)).0)
            == ProducerStep::Finished,
        accumulate(all_segments_of(audio)) == (AccumulatorView { segments: audio, failed: false }),
        audio.len() > 0 ==> finish_spec(accumulate(all_segments_of(audio))) == Some(audio),
{
    let total = audio.len();
    lemma_synthesized_prefix(total, audio, total as int);
    assert(all_synthesized(audio).take(total as int) =~= all_synthesized(audio));
    assert(all_segments_of(audio).take(total as int) =~= all_segments_of(audio));
    lemma_accumulate_in_order(all_segments_of(audio));
    assert(accumulate(all_segments_of(audio)).segments =~= audio);
}

} // verus!
