//! The playback queue of one voice session.
//!
//! A session has one sink and plays one track at a time. Requests are served
//! in the order in which they were opened: the segments of a request are
//! played in the order of their ordinals, and no segment of a later request
//! is played while an earlier request may still deliver.
//!
//! A request is played whole or not at all. Its segments wait until the
//! request is closed; a request that is given up while it is open has played
//! nothing and plays nothing. The queue decides what is played next; playing
//! it is the caller's work.

use crate::pipeline::{buffers_of, AudioSegment};
use std::collections::VecDeque;
use vstd::std_specs::vecdeque::VecDequeAdditionalSpecFns;
use vstd::prelude::*;

verus! {

/// Whether the session's sink is busy.
#[derive(Debug, Clone, Copy, PartialEq, Eq, Structural)]
pub enum SessionState {
    /// Nothing is being played.
    Idle,
    /// A track is being played.
    Playing,
}

/// Why the queue refused a call.
#[derive(Debug, Clone, Copy, PartialEq, Eq, Structural)]
pub enum QueueError {
    /// The session has no live sink; the caller has to establish one first.
    NoSink,
    /// The session has used up its request numbers.
    Exhausted,
    /// No open request has this number.
    UnknownRequest,
    /// The segment is not the next of its request in ordinal order.
    OutOfOrder { expected: u64, got: u32 },
    /// The request has more segments than ordinals can number.
    TooManySegments,
}

/// A segment that waits to be played, with the request that it belongs to.
#[derive(Debug, PartialEq, Eq)]
pub struct QueuedSegment {
    /// The number of the request.
    pub request: u64,
    /// The segment.
    pub segment: AudioSegment,
}

/// A waiting segment, as plain values.
pub struct QueuedView {
    pub request: nat,
    pub ordinal: nat,
    pub bytes: Seq<u8>,
}

impl View for QueuedSegment {
    type V = QueuedView;

    open spec fn view(&self) -> QueuedView {
        QueuedView {
            request: self.request as nat,
            ordinal: self.segment.ordinal as nat,
            bytes: self.segment.bytes@,
        }
    }
}

/// A request that may still deliver segments.
#[derive(Debug, Clone, Copy)]
struct OpenRequest {
    id: u64,
    next_ordinal: u64,
}

/// An open request, as plain values: its number and the ordinal of the
/// segment that it is to deliver next.
pub struct OpenView {
    pub id: nat,
    pub next_ordinal: nat,
}

/// The state of a session's queue.
pub struct QueueView {
    /// Whether the session has a live sink.
    pub has_sink: bool,
    /// Whether a track is being played.
    pub playing: bool,
    /// The number that the next request gets.
    pub next_request: nat,
    /// The open requests, in the order in which they were opened.
    pub open: Seq<OpenView>,
    /// The segments that wait to be played, the next one first.
    pub queue: Seq<QueuedView>,
}

/// Position of the open request numbered `id`, or the number of open
/// requests where there is none.
pub open spec fn open_position(open: Seq<OpenView>, id: nat) -> int
    decreases open.len(),
{
    if open.len() == 0 || open[0].id == id {
        0
    } else {
        1 + open_position(open.drop_first(), id)
    }
}

/// Where a segment of `request` joins the queue: behind every waiting
/// segment of that request and of earlier ones.
pub open spec fn insert_position(queue: Seq<QueuedView>, request: nat) -> int
    decreases queue.len(),
{
    if queue.len() == 0 || queue[0].request > request {
        0
    } else {
        1 + insert_position(queue.drop_first(), request)
    }
}

/// The queue without the segments of `request`.
pub open spec fn without_request(queue: Seq<QueuedView>, request: nat) -> Seq<QueuedView>
    decreases queue.len(),
{
    if queue.len() == 0 {
        queue
    } else if queue[0].request == request {
        without_request(queue.drop_first(), request)
    } else {
        seq![queue[0]] + without_request(queue.drop_first(), request)
    }
}

/// The request is closed, and so is every request that was opened before
/// it: no open request has its number or a smaller one.
pub open spec fn closed_up_to(open: Seq<OpenView>, request: nat) -> bool {
    forall|k: int| 0 <= k < open.len() ==> (#[trigger] open[k]).id > request
}

/// The segment at the head of the queue may be played: its request is
/// closed, so that nothing of it can fail any more, and no request that was
/// opened before its own may still deliver.
pub open spec fn head_playable(q: QueueView) -> bool {
    q.queue.len() > 0 && closed_up_to(q.open, q.queue[0].request)
}

/// The queue of a session that has just been created.
pub open spec fn new_queue() -> QueueView {
    QueueView {
        has_sink: false,
        playing: false,
        next_request: 0,
        open: Seq::empty(),
        queue: Seq::empty(),
    }
}

/// The session gets its sink.
pub open spec fn attach_spec(q: QueueView) -> QueueView {
    QueueView { has_sink: true, ..q }
}

/// The sink has gone: the session is idle and holds nothing.
pub open spec fn detach_spec(q: QueueView) -> QueueView {
    QueueView { has_sink: false, playing: false, open: Seq::empty(), queue: Seq::empty(), ..q }
}

/// A request is opened: it gets the next number, unless the session has no
/// sink.
pub open spec fn begin_spec(q: QueueView) -> (QueueView, Result<nat, QueueError>) {
    if !q.has_sink {
        (q, Err(QueueError::NoSink))
    } else if q.next_request >= u64::MAX {
        (q, Err(QueueError::Exhausted))
    } else {
        (
            QueueView {
                next_request: q.next_request + 1,
                open: q.open.push(OpenView { id: q.next_request, next_ordinal: 0 }),
                ..q
            },
            Ok(q.next_request),
        )
    }
}

/// A segment is handed in: it joins the queue where its request is open and
/// it is the next of that request.
pub open spec fn submit_spec(q: QueueView, request: nat, ordinal: nat, bytes: Seq<u8>) -> (
    QueueView,
    Result<(), QueueError>,
) {
    let p = open_position(q.open, request);
    if p >= q.open.len() {
        (q, Err(QueueError::UnknownRequest))
    } else if q.open[p].next_ordinal != ordinal {
        (
            q,
            Err(
                QueueError::OutOfOrder {
                    expected: q.open[p].next_ordinal as u64,
                    got: ordinal as u32,
                },
            ),
        )
    } else {
        (
            QueueView {
                open: q.open.update(p, OpenView { id: request, next_ordinal: ordinal + 1 }),
                queue: q.queue.insert(
                    insert_position(q.queue, request),
                    QueuedView { request, ordinal, bytes },
                ),
                ..q
            },
            Ok(()),
        )
    }
}

/// A request is closed: it delivers no more. What it has delivered stays.
pub open spec fn finish_spec(q: QueueView, request: nat) -> (QueueView, Result<(), QueueError>) {
    let p = open_position(q.open, request);
    if p >= q.open.len() {
        (q, Err(QueueError::UnknownRequest))
    } else {
        (QueueView { open: q.open.remove(p), ..q }, Ok(()))
    }
}

/// A request is given up: it delivers no more, and what it has delivered
/// and was not yet played is dropped.
pub open spec fn abort_spec(q: QueueView, request: nat) -> (QueueView, Result<(), QueueError>) {
    let p = open_position(q.open, request);
    if p >= q.open.len() {
        (q, Err(QueueError::UnknownRequest))
    } else {
        (
            QueueView {
                open: q.open.remove(p),
                queue: without_request(q.queue, request),
                ..q
            },
            Ok(()),
        )
    }
}

/// The segments of a request as they wait in the queue: numbered from 0,
/// each with its audio.
pub open spec fn request_items(request: nat, segments: Seq<Seq<u8>>) -> Seq<QueuedView> {
    Seq::new(
        segments.len(),
        |k: int| QueuedView { request, ordinal: k as nat, bytes: segments[k] },
    )
}

/// The queue once the first `count` segments of a request have been handed
/// in, one after the other.
pub open spec fn submit_all(q: QueueView, request: nat, segments: Seq<Seq<u8>>, count: int) -> QueueView
    decreases count,
{
    if count <= 0 {
        q
    } else {
        submit_spec(
            submit_all(q, request, segments, count - 1),
            request,
            (count - 1) as nat,
            segments[count - 1],
        ).0
    }
}

/// A whole request is handed in: it is opened, its segments are handed in
/// in order, and it is closed. A request with more segments than ordinals
/// can number, and one that cannot be opened, changes nothing.
pub open spec fn enqueue_request_spec(q: QueueView, segments: Seq<Seq<u8>>) -> (
    QueueView,
    Result<nat, QueueError>,
) {
    if segments.len() > u32::MAX {
        (q, Err(QueueError::TooManySegments))
    } else {
        match begin_spec(q).1 {
            Err(error) => (q, Err(error)),
            Ok(request) => (
                finish_spec(
                    submit_all(begin_spec(q).0, request, segments, segments.len() as int),
                    request,
                ).0,
                Ok(request),
            ),
        }
    }
}

/// The sink asks for a track: it gets the head of the queue where nothing is
/// being played and the head may be played.
pub open spec fn poll_spec(q: QueueView) -> (QueueView, Option<QueuedView>) {
    if !q.playing && head_playable(q) {
        (QueueView { playing: true, queue: q.queue.drop_first(), ..q }, Some(q.queue[0]))
    } else {
        (q, None)
    }
}

/// The track has ended: the session is idle.
pub open spec fn track_ended_spec(q: QueueView) -> QueueView {
    QueueView { playing: false, ..q }
}

/// The views of a list of open requests.
spec fn open_views(open: Seq<OpenRequest>) -> Seq<OpenView> {
    Seq::new(open.len(), |k: int| OpenView { id: open[k].id as nat, next_ordinal: open[k].next_ordinal as nat })
}

/// The views of a list of waiting segments.
pub open spec fn queued_views(queue: Seq<QueuedSegment>) -> Seq<QueuedView> {
    Seq::new(queue.len(), |k: int| queue[k]@)
}

/// The playback queue of one session.
#[derive(Debug)]
pub struct PlaybackQueue {
    has_sink: bool,
    playing: bool,
    next_request: u64,
    open: Vec<OpenRequest>,
    queue: VecDeque<QueuedSegment>,
}

impl View for PlaybackQueue {
    type V = QueueView;

    closed spec fn view(&self) -> QueueView {
        QueueView {
            has_sink: self.has_sink,
            playing: self.playing,
            next_request: self.next_request as nat,
            open: open_views(self.open@),
            queue: queued_views(self.queue@),
        }
    }
}

impl PlaybackQueue {
    /// The queue of a new session: no sink, idle, nothing waiting.
    pub fn new() -> (q: PlaybackQueue)
        ensures
            q@ == new_queue(),
    {
        let q = PlaybackQueue {
            has_sink: false,
            playing: false,
            next_request: 0,
            open: Vec::new(),
            queue: VecDeque::new(),
        };
        assert(open_views(q.open@) =~= Seq::<OpenView>::empty());
        assert(queued_views(q.queue@) =~= Seq::<QueuedView>::empty());
        q
    }

    /// Whether the sink is busy.
    pub fn state(&self) -> (s: SessionState)
        ensures
            s == if self@.playing {
                SessionState::Playing
            } else {
                SessionState::Idle
            },
    {
        if self.playing {
            SessionState::Playing
        } else {
            SessionState::Idle
        }
    }

    /// Whether the session has a live sink.
    pub fn has_sink(&self) -> (r: bool)
        ensures
            r == self@.has_sink,
    {
        self.has_sink
    }

    /// Number of segments that wait to be played.
    pub fn waiting(&self) -> (n: usize)
        ensures
            n == self@.queue.len(),
    {
        self.queue.len()
    }

    /// Takes note that the session has a live sink.
    pub fn attach_sink(&mut self)
        ensures
            final(self)@ == attach_spec(old(self)@),
    {
        self.has_sink = true;
    }

    /// Takes note that the sink has gone: everything that waited is dropped.
    pub fn detach_sink(&mut self)
        ensures
            final(self)@ == detach_spec(old(self)@),
    {
        self.has_sink = false;
        self.playing = false;
        self.open = Vec::new();
        self.queue = VecDeque::new();
        assert(open_views(self.open@) =~= Seq::<OpenView>::empty());
        assert(queued_views(self.queue@) =~= Seq::<QueuedView>::empty());
    }

    /// Opens a request and returns its number. The queue makes no sink: a
    /// session without one opens no request.
    pub fn begin_request(&mut self) -> (r: Result<u64, QueueError>)
        ensures
            (final(self)@, match r {
                Ok(id) => Ok(id as nat),
                Err(e) => Err(e),
            }) == begin_spec(old(self)@),
    {
        if !self.has_sink {
            return Err(QueueError::NoSink);
        }
        if self.next_request == u64::MAX {
            return Err(QueueError::Exhausted);
        }
        let id = self.next_request;
        let ghost before = self@.open;
        self.open.push(OpenRequest { id, next_ordinal: 0 });
        self.next_request = id + 1;
        assert(open_views(self.open@) =~= before.push(OpenView { id: id as nat, next_ordinal: 0 }));
        Ok(id)
    }

    /// Position of the open request numbered `id`, or their number.
    fn open_index(&self, id: u64) -> (r: usize)
        ensures
            r == open_position(self@.open, id as nat),
            r <= self.open.len(),
    {
        let ghost all = open_views(self.open@);
        let mut i: usize = 0;
        assert(all.skip(0) == all);
        while i < self.open.len()
            invariant
                i <= self.open.len(),
                all == open_views(self.open@),
                open_position(all, id as nat) == i + open_position(all.skip(i as int), id as nat),
            decreases self.open.len() - i,
        {
            assert(all.skip(i as int)[0].id == self.open[i as int].id);
            if self.open[i].id == id {
                return i;
            }
            assert(all.skip(i as int).drop_first() == all.skip(i + 1));
            i += 1;
        }
        i
    }

    /// Where a segment of `request` joins the queue.
    fn insert_index(&self, request: u64) -> (r: usize)
        ensures
            r == insert_position(self@.queue, request as nat),
            r <= self.queue.len(),
    {
        let ghost all = queued_views(self.queue@);
        let mut i: usize = 0;
        assert(all.skip(0) == all);
        while i < self.queue.len()
            invariant
                i <= self.queue.len(),
                all == queued_views(self.queue@),
                insert_position(all, request as nat) == i + insert_position(
                    all.skip(i as int),
                    request as nat,
                ),
            decreases self.queue.len() - i,
        {
            assert(all.skip(i as int)[0].request == self.queue[i as int].request);
            if self.queue[i].request > request {
                return i;
            }
            assert(all.skip(i as int).drop_first() == all.skip(i + 1));
            i += 1;
        }
        i
    }

    /// Hands in the next segment of an open request. A segment that is not
    /// the next of its request in ordinal order is refused.
    pub fn submit(&mut self, request: u64, segment: AudioSegment) -> (r: Result<(), QueueError>)
        ensures
            (final(self)@, r) == submit_spec(
                old(self)@,
                request as nat,
                segment.ordinal as nat,
                segment.bytes@,
            ),
    {
        let p = self.open_index(request);
        if p >= self.open.len() {
            return Err(QueueError::UnknownRequest);
        }
        let entry = self.open[p];
        assert(self@.open[p as int].next_ordinal == entry.next_ordinal);
        if entry.next_ordinal != segment.ordinal as u64 {
            return Err(QueueError::OutOfOrder { expected: entry.next_ordinal, got: segment.ordinal });
        }
        let at = self.insert_index(request);
        let ghost before_open = self@.open;
        let ghost before_queue = self@.queue;
        let ghost item = (QueuedView {
            request: request as nat,
            ordinal: segment.ordinal as nat,
            bytes: segment.bytes@,
        });
        self.open.set(p, OpenRequest { id: request, next_ordinal: segment.ordinal as u64 + 1 });
        self.queue.insert(at, QueuedSegment { request, segment });
        assert(open_views(self.open@) =~= before_open.update(
            p as int,
            OpenView { id: request as nat, next_ordinal: item.ordinal + 1 },
        ));
        assert(queued_views(self.queue@) =~= before_queue.insert(at as int, item));
        Ok(())
    }

    /// Closes a request: it delivers no more. From now on what it has
    /// delivered may be played, in its turn.
    pub fn finish_request(&mut self, request: u64) -> (r: Result<(), QueueError>)
        ensures
            (final(self)@, r) == finish_spec(old(self)@, request as nat),
    {
        let p = self.open_index(request);
        if p >= self.open.len() {
            return Err(QueueError::UnknownRequest);
        }
        let ghost before = self@.open;
        self.open.remove(p);
        assert(open_views(self.open@) =~= before.remove(p as int));
        Ok(())
    }

    /// Gives a request up: it delivers no more, and its segments leave the
    /// queue. Since nothing of an open request is played, none of its
    /// segments was played and none will be.
    pub fn abort_request(&mut self, request: u64) -> (r: Result<(), QueueError>)
        ensures
            (final(self)@, r) == abort_spec(old(self)@, request as nat),
    {
        let p = self.open_index(request);
        if p >= self.open.len() {
            return Err(QueueError::UnknownRequest);
        }
        let ghost before = self@.open;
        let ghost all = self@.queue;
        self.open.remove(p);
        assert(open_views(self.open@) =~= before.remove(p as int));
        let mut kept: VecDeque<QueuedSegment> = VecDeque::new();
        assert(queued_views(kept@) =~= Seq::<QueuedView>::empty());
        while self.queue.len() > 0
            invariant
                queued_views(kept@) + without_request(queued_views(self.queue@), request as nat)
                    == without_request(all, request as nat),
                self.has_sink == old(self).has_sink,
                self.playing == old(self).playing,
                self.next_request == old(self).next_request,
                open_views(self.open@) == before.remove(p as int),
            decreases self.queue.len(),
        {
            let ghost rest = queued_views(self.queue@);
            let ghost done = queued_views(kept@);
            let item = self.queue.pop_front().unwrap();
            assert(queued_views(self.queue@) =~= rest.drop_first());
            assert(item@ == rest[0]);
            if item.request != request {
                kept.push_back(item);
                assert(queued_views(kept@) =~= done + seq![rest[0]]);
                assert((done + seq![rest[0]]) + without_request(rest.drop_first(), request as nat)
                    =~= done + (seq![rest[0]] + without_request(rest.drop_first(), request as nat)));
            }
        }
        assert(queued_views(kept@) + Seq::<QueuedView>::empty() =~= queued_views(kept@));
        self.queue = kept;
        Ok(())
    }

    /// Hands in a whole request: opens it, hands its segments in, in order
    /// and numbered from 0, and closes it. Returns the number of the request.
    pub fn enqueue_request(&mut self, segments: Vec<Vec<u8>>) -> (r: Result<u64, QueueError>)
        ensures
            (final(self)@, match r {
                Ok(id) => Ok(id as nat),
                Err(e) => Err(e),
            }) == enqueue_request_spec(old(self)@, buffers_of(segments@)),
    {
        if segments.len() > u32::MAX as usize {
            return Err(QueueError::TooManySegments);
        }
        let id = match self.begin_request() {
            Ok(id) => id,
            Err(error) => {
                return Err(error);
            },
        };
        let ghost all = buffers_of(segments@);
        let ghost opened = self@;
        let mut segments = segments;
        let mut k: usize = 0;
        while k < segments.len()
            invariant
                k <= segments.len() == all.len() <= u32::MAX,
                self@ == submit_all(opened, id as nat, all, k as int),
                forall|j: int| k <= j < segments.len() ==> (#[trigger] segments@[j])@ == all[j],
            decreases segments.len() - k,
        {
            let mut bytes: Vec<u8> = Vec::new();
            std::mem::swap(&mut bytes, &mut segments[k]);
            let _taken = self.submit(id, AudioSegment { ordinal: k as u32, bytes });
            k += 1;
        }
        let _closed = self.finish_request(id);
        Ok(id)
    }

    /// Whether `request` and every request opened before it are closed.
    fn none_up_to(&self, request: u64) -> (r: bool)
        ensures
            r == closed_up_to(self@.open, request as nat),
    {
        let mut i: usize = 0;
        while i < self.open.len()
            invariant
                i <= self.open.len(),
                forall|k: int| 0 <= k < i ==> (#[trigger] self@.open[k]).id > request,
            decreases self.open.len() - i,
        {
            assert(self@.open[i as int].id == self.open[i as int].id);
            if self.open[i].id <= request {
                return false;
            }
            i += 1;
        }
        true
    }

    /// Asks for the next track. While a track is being played there is none;
    /// otherwise it is the segment at the head of the queue, unless its
    /// request or an earlier one is still open. A session that gets a track
    /// is playing until `track_ended` is called.
    pub fn poll(&mut self) -> (track: Option<QueuedSegment>)
        ensures
            (final(self)@, match track {
                Some(t) => Some(t@),
                None => None,
            }) == poll_spec(old(self)@),
    {
        if self.playing || self.queue.len() == 0 {
            return None;
        }
        assert(self@.queue[0].request == self.queue[0].request);
        if !self.none_up_to(self.queue[0].request) {
            return None;
        }
        let ghost before = self@.queue;
        let track = self.queue.pop_front();
        self.playing = true;
        assert(queued_views(self.queue@) =~= before.drop_first());
        track
    }

    /// Takes note that the track has ended: the session is idle.
    pub fn track_ended(&mut self)
        ensures
            final(self)@ == track_ended_spec(old(self)@),
    {
        self.playing = false;
    }
}

} // verus!
