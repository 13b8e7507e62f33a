//! What holds of every session, whatever is asked of its queue and in
//! whatever order: tracks come out request by request, and within a request
//! in the order of the ordinals.

use crate::playback::{
    abort_spec, attach_spec, begin_spec, detach_spec, enqueue_request_spec, finish_spec,
    insert_position, new_queue, open_position, poll_spec, request_items, submit_all,
    submit_spec, track_ended_spec, without_request, OpenView, QueueView, QueuedView,
};
use vstd::prelude::*;

verus! {

/// What can be asked of a queue.
pub enum QueueOp {
    AttachSink,
    DetachSink,
    Begin,
    Submit { request: nat, ordinal: nat, bytes: Seq<u8> },
    Finish { request: nat },
    Abort { request: nat },
    Enqueue { segments: Seq<Seq<u8>> },
    Poll,
    TrackEnded,
}

/// The queue after `op`, and the track that `op` has handed out, if any.
pub open spec fn queue_apply(q: QueueView, op: QueueOp) -> (QueueView, Option<QueuedView>) {
    match op {
        QueueOp::AttachSink => (attach_spec(q), None),
        QueueOp::DetachSink => (detach_spec(q), None),
        QueueOp::Begin => (begin_spec(q).0, None),
        QueueOp::Submit { request, ordinal, bytes } => (
            submit_spec(q, request, ordinal, bytes).0,
            None,
        ),
        QueueOp::Finish { request } => (finish_spec(q, request).0, None),
        QueueOp::Abort { request } => (abort_spec(q, request).0, None),
        QueueOp::Enqueue { segments } => (enqueue_request_spec(q, segments).0, None),
        QueueOp::Poll => poll_spec(q),
        QueueOp::TrackEnded => (track_ended_spec(q), None),
    }
}

/// The queue of a new session after `ops`, and the tracks handed out on the
/// way, in order.
pub open spec fn queue_run(ops: Seq<QueueOp>) -> (QueueView, Seq<QueuedView>)
    decreases ops.len(),
{
    if ops.len() == 0 {
        (new_queue(), Seq::empty())
    } else {
        let (before, played) = queue_run(ops.drop_last());
        let (after, track) = queue_apply(before, ops.last());
        (
            after,
            match track {
                Some(t) => played.push(t),
                None => played,
            },
        )
    }
}

/// `a` is played before `b`: it belongs to an earlier request, or to the
/// same request and has the smaller ordinal.
pub open spec fn precedes(a: QueuedView, b: QueuedView) -> bool {
    a.request < b.request || (a.request == b.request && a.ordinal < b.ordinal)
}

/// Each of the segments is played before all that follow it.
pub open spec fn in_play_order(s: Seq<QueuedView>) -> bool {
    forall|i: int, j: int| 0 <= i < j < s.len() ==> precedes(#[trigger] s[i], #[trigger] s[j])
}

/// Every segment of the list meets `p`.
pub open spec fn all_segments(s: Seq<QueuedView>, p: spec_fn(QueuedView) -> bool) -> bool {
    forall|i: int| 0 <= i < s.len() ==> p(#[trigger] s[i])
}

/// Every open request of the list meets `p`.
pub open spec fn all_open(s: Seq<OpenView>, p: spec_fn(OpenView) -> bool) -> bool {
    forall|k: int| 0 <= k < s.len() ==> p(#[trigger] s[k])
}

/// Open requests stand in the order of their numbers.
pub open spec fn open_in_order(open: Seq<OpenView>) -> bool {
    forall|j: int, k: int| 0 <= j < k < open.len() ==> (#[trigger] open[j]).id < (#[trigger] open[k]).id
}

/// A waiting segment lies below what its request, if open, delivers next.
pub open spec fn below_next(open: Seq<OpenView>) -> spec_fn(QueuedView) -> bool {
    |x: QueuedView|
        forall|k: int|
            0 <= k < open.len() && (#[trigger] open[k]).id == x.request ==> x.ordinal
                < open[k].next_ordinal
}

/// An open request was opened after the request of `last`: nothing of an
/// open request has been played.
pub open spec fn delivers_after(last: QueuedView) -> spec_fn(OpenView) -> bool {
    |o: OpenView| o.id > last.request
}

/// What holds of a queue and of the tracks that it has handed out.
pub open spec fn queue_inv(q: QueueView, played: Seq<QueuedView>) -> bool {
    &&& open_in_order(q.open)
    &&& all_open(q.open, |o: OpenView| o.id < q.next_request)
    &&& in_play_order(q.queue)
    &&& all_segments(q.queue, |x: QueuedView| x.request < q.next_request)
    &&& all_segments(q.queue, below_next(q.open))
    &&& in_play_order(played)
    &&& played.len() > 0 ==> {
        &&& played.last().request < q.next_request
        &&& all_segments(q.queue, |x: QueuedView| precedes(played.last(), x))
        &&& all_open(q.open, delivers_after(played.last()))
    }
}

proof fn lemma_open_position(open: Seq<OpenView>, id: nat)
    ensures
        0 <= open_position(open, id) <= open.len(),
        open_position(open, id) < open.len() ==> open[open_position(open, id)].id == id,
        forall|j: int| 0 <= j < open_position(open, id) ==> (#[trigger] open[j]).id != id,
    decreases open.len(),
{
    if open.len() == 0 || open[0].id == id {
    } else {
        let rest = open.drop_first();
        lemma_open_position(rest, id);
        assert forall|j: int| 0 <= j < open_position(open, id) implies (#[trigger] open[j]).id
            != id by {
            if j > 0 {
                assert(open[j] == rest[j - 1]);
            }
        }
    }
}

proof fn lemma_insert_position(queue: Seq<QueuedView>, request: nat)
    ensures
        0 <= insert_position(queue, request) <= queue.len(),
        forall|i: int|
            0 <= i < insert_position(queue, request) ==> (#[trigger] queue[i]).request <= request,
        insert_position(queue, request) < queue.len() ==> queue[insert_position(
            queue,
            request,
        )].request > request,
    decreases queue.len(),
{
    if queue.len() == 0 || queue[0].request > request {
    } else {
        let rest = queue.drop_first();
        lemma_insert_position(rest, request);
        assert forall|i: int| 0 <= i < insert_position(queue, request) implies (
        #[trigger] queue[i]).request <= request by {
            if i > 0 {
                assert(queue[i] == rest[i - 1]);
            }
        }
    }
}

/// What is left without a request is part of what was there, in the same
/// order, and holds nothing of that request.
proof fn lemma_without_request(queue: Seq<QueuedView>, request: nat)
    ensures
        forall|i: int|
            0 <= i < without_request(queue, request).len() ==> queue.contains(
                #[trigger] without_request(queue, request)[i],
            ) && without_request(queue, request)[i].request != request,
        in_play_order(queue) ==> in_play_order(without_request(queue, request)),
    decreases queue.len(),
{
    if queue.len() > 0 {
        let rest = queue.drop_first();
        let left = without_request(queue, request);
        let left_rest = without_request(rest, request);
        lemma_without_request(rest, request);
        assert forall|i: int| 0 <= i < left_rest.len() implies queue.contains(
            #[trigger] left_rest[i],
        ) by {
            let x = left_rest[i];
            assert(rest.contains(x));
            let at = choose|at: int| 0 <= at < rest.len() && rest[at] == x;
            assert(queue[at + 1] == x);
        }
        if queue[0].request == request {
            assert(left == left_rest);
        } else {
            assert(left == seq![queue[0]] + left_rest);
            assert forall|i: int| 0 <= i < left.len() implies queue.contains(#[trigger] left[i])
                && left[i].request != request by {
                if i == 0 {
                    assert(queue[0] == left[0]);
                } else {
                    assert(left[i] == left_rest[i - 1]);
                }
            }
        }
        if in_play_order(queue) {
            assert(in_play_order(rest)) by {
                assert forall|i: int, j: int| 0 <= i < j < rest.len() implies precedes(
                    #[trigger] rest[i],
                    #[trigger] rest[j],
                ) by {
                    assert(rest[i] == queue[i + 1] && rest[j] == queue[j + 1]);
                }
            }
            if queue[0].request != request {
                assert forall|i: int, j: int| 0 <= i < j < left.len() implies precedes(
                    #[trigger] left[i],
                    #[trigger] left[j],
                ) by {
                    assert(left[j] == left_rest[j - 1]);
                    if i == 0 {
                        let x = left_rest[j - 1];
                        assert(rest.contains(x));
                        let at = choose|at: int| 0 <= at < rest.len() && rest[at] == x;
                        assert(queue[at + 1] == x);
                        assert(precedes(queue[0], queue[at + 1]));
                    } else {
                        assert(left[i] == left_rest[i - 1]);
                    }
                }
            }
        }
    }
}

/// What every waiting segment met, every segment left without a request
/// meets.
proof fn lemma_without_keeps(queue: Seq<QueuedView>, request: nat, p: spec_fn(QueuedView) -> bool)
    requires
        all_segments(queue, p),
    ensures
        all_segments(without_request(queue, request), p),
{
    lemma_without_request(queue, request);
    let left = without_request(queue, request);
    assert forall|i: int| 0 <= i < left.len() implies p(#[trigger] left[i]) by {
        assert(queue.contains(left[i]));
        let at = choose|at: int| 0 <= at < queue.len() && queue[at] == left[i];
        assert(p(queue[at]));
    }
}

proof fn lemma_begin_keeps_inv(q: QueueView, played: Seq<QueuedView>)
    requires
        queue_inv(q, played),
    ensures
        queue_inv(begin_spec(q).0, played),
{
    let after = begin_spec(q).0;
    if after != q {
        let fresh = OpenView { id: q.next_request, next_ordinal: 0 };
        assert(after.open == q.open.push(fresh));
        assert forall|j: int, k: int| 0 <= j < k < after.open.len() implies (
        #[trigger] after.open[j]).id < (#[trigger] after.open[k]).id by {
            assert(after.open[j] == q.open[j]);
            if k < q.open.len() {
                assert(after.open[k] == q.open[k]);
            }
        }
        assert forall|k: int| 0 <= k < after.open.len() implies (#[trigger] after.open[k]).id
            < after.next_request by {
            if k < q.open.len() {
                assert(after.open[k] == q.open[k]);
            }
        }
        assert forall|i: int| 0 <= i < after.queue.len() implies below_next(after.open)(
            #[trigger] after.queue[i],
        ) by {
            let x = after.queue[i];
            assert(below_next(q.open)(q.queue[i]));
            assert forall|k: int|
                0 <= k < after.open.len() && (#[trigger] after.open[k]).id
                    == x.request implies x.ordinal < after.open[k].next_ordinal by {
                if k < q.open.len() {
                    assert(after.open[k] == q.open[k]);
                }
            }
        }
        if played.len() > 0 {
            assert forall|k: int| 0 <= k < after.open.len() implies delivers_after(played.last())(
                #[trigger] after.open[k],
            ) by {
                if k < q.open.len() {
                    assert(after.open[k] == q.open[k]);
                }
            }
        }
    }
}

proof fn lemma_submit_keeps_inv(
    q: QueueView,
    played: Seq<QueuedView>,
    request: nat,
    ordinal: nat,
    bytes: Seq<u8>,
)
    requires
        queue_inv(q, played),
    ensures
        queue_inv(submit_spec(q, request, ordinal, bytes).0, played),
{
    let after = submit_spec(q, request, ordinal, bytes).0;
    lemma_open_position(q.open, request);
    lemma_insert_position(q.queue, request);
    let p = open_position(q.open, request);
    if after != q {
        let at = insert_position(q.queue, request);
        let item = QueuedView { request, ordinal, bytes };
        let entry = OpenView { id: request, next_ordinal: ordinal + 1 };
        assert(after.open == q.open.update(p, entry));
        assert(after.queue == q.queue.insert(at, item));
        assert(q.open[p].id == request && q.open[p].next_ordinal == ordinal);
        // every segment behind the place of insertion belongs to a later request
        assert forall|i: int| at <= i < q.queue.len() implies (#[trigger] q.queue[i]).request
            > request by {
            if i > at {
                assert(precedes(q.queue[at], q.queue[i]));
            }
        }
        assert forall|i: int| 0 <= i < at implies precedes(#[trigger] q.queue[i], item) by {
            assert(below_next(q.open)(q.queue[i]));
            if q.queue[i].request == request {
                assert(q.open[p].id == q.queue[i].request);
            }
        }
        assert forall|i: int, j: int| 0 <= i < j < after.queue.len() implies precedes(
            #[trigger] after.queue[i],
            #[trigger] after.queue[j],
        ) by {
            if j < at {
                assert(after.queue[i] == q.queue[i] && after.queue[j] == q.queue[j]);
            } else if j == at {
                assert(after.queue[i] == q.queue[i]);
            } else if i < at {
                assert(after.queue[i] == q.queue[i] && after.queue[j] == q.queue[j - 1]);
            } else if i == at {
                assert(after.queue[j] == q.queue[j - 1]);
            } else {
                assert(after.queue[i] == q.queue[i - 1] && after.queue[j] == q.queue[j - 1]);
            }
        }
        assert forall|j: int, k: int| 0 <= j < k < after.open.len() implies (
        #[trigger] after.open[j]).id < (#[trigger] after.open[k]).id by {
            assert(after.open[j].id == q.open[j].id);
            assert(after.open[k].id == q.open[k].id);
        }
        assert forall|k: int| 0 <= k < after.open.len() implies (#[trigger] after.open[k]).id
            < after.next_request by {
            assert(after.open[k].id == q.open[k].id);
        }
        assert forall|i: int| 0 <= i < after.queue.len() implies (
        #[trigger] after.queue[i]).request < after.next_request by {
            if i < at {
                assert(after.queue[i] == q.queue[i]);
            } else if i > at {
                assert(after.queue[i] == q.queue[i - 1]);
            } else {
                assert(q.open[p].id < q.next_request);
            }
        }
        assert forall|i: int| 0 <= i < after.queue.len() implies below_next(after.open)(
            #[trigger] after.queue[i],
        ) by {
            let x = after.queue[i];
            assert forall|k: int|
                0 <= k < after.open.len() && (#[trigger] after.open[k]).id
                    == x.request implies x.ordinal < after.open[k].next_ordinal by {
                if i == at {
                    if k != p {
                        if k < p {
                            assert(q.open[k].id < q.open[p].id);
                        } else {
                            assert(q.open[p].id < q.open[k].id);
                        }
                    }
                } else {
                    let old_i = if i < at {
                        i
                    } else {
                        i - 1
                    };
                    assert(x == q.queue[old_i]);
                    assert(below_next(q.open)(q.queue[old_i]));
                    assert(q.open[k].id == after.open[k].id);
                }
            }
        }
        if played.len() > 0 {
            let last = played.last();
            assert(delivers_after(last)(q.open[p]));
            assert forall|i: int| 0 <= i < after.queue.len() implies precedes(
                last,
                #[trigger] after.queue[i],
            ) by {
                if i < at {
                    assert(after.queue[i] == q.queue[i]);
                } else if i > at {
                    assert(after.queue[i] == q.queue[i - 1]);
                }
            }
            assert forall|k: int| 0 <= k < after.open.len() implies delivers_after(last)(
                #[trigger] after.open[k],
            ) by {
                assert(delivers_after(last)(q.open[k]));
            }
        }
    }
}

proof fn lemma_close_keeps_inv(q: QueueView, played: Seq<QueuedView>, request: nat, drop: bool)
    requires
        queue_inv(q, played),
    ensures
        queue_inv(
            if drop {
                abort_spec(q, request).0
            } else {
                finish_spec(q, request).0
            },
            played,
        ),
{
    let after = if drop {
        abort_spec(q, request).0
    } else {
        finish_spec(q, request).0
    };
    lemma_open_position(q.open, request);
    let p = open_position(q.open, request);
    if p < q.open.len() {
        assert(after.open == q.open.remove(p));
        assert forall|k: int| 0 <= k < after.open.len() implies #[trigger] after.open[k]
            == q.open[if k < p {
            k
        } else {
            k + 1
        }] by {}
        assert forall|j: int, k: int| 0 <= j < k < after.open.len() implies (
        #[trigger] after.open[j]).id < (#[trigger] after.open[k]).id by {
            let oj = if j < p {
                j
            } else {
                j + 1
            };
            let ok = if k < p {
                k
            } else {
                k + 1
            };
            assert(after.open[j] == q.open[oj] && after.open[k] == q.open[ok]);
        }
        assert forall|k: int| 0 <= k < after.open.len() implies (#[trigger] after.open[k]).id
            < after.next_request by {
            let ok = if k < p {
                k
            } else {
                k + 1
            };
            assert(after.open[k] == q.open[ok]);
        }
        assert(all_segments(q.queue, below_next(after.open))) by {
            assert forall|i: int| 0 <= i < q.queue.len() implies below_next(after.open)(
                #[trigger] q.queue[i],
            ) by {
                let x = q.queue[i];
                assert(below_next(q.open)(x));
                assert forall|k: int|
                    0 <= k < after.open.len() && (#[trigger] after.open[k]).id
                        == x.request implies x.ordinal < after.open[k].next_ordinal by {
                    let ok = if k < p {
                        k
                    } else {
                        k + 1
                    };
                    assert(after.open[k] == q.open[ok]);
                }
            }
        }
        if drop {
            lemma_without_request(q.queue, request);
            lemma_without_keeps(q.queue, request, |x: QueuedView| x.request < q.next_request);
            lemma_without_keeps(q.queue, request, below_next(after.open));
        }
        if played.len() > 0 {
            let last = played.last();
            if drop {
                lemma_without_keeps(q.queue, request, |x: QueuedView| precedes(last, x));
            }
            assert forall|k: int| 0 <= k < after.open.len() implies delivers_after(last)(
                #[trigger] after.open[k],
            ) by {
                let ok = if k < p {
                    k
                } else {
                    k + 1
                };
                assert(after.open[k] == q.open[ok]);
            }
        }
    }
}

proof fn lemma_poll_keeps_inv(q: QueueView, played: Seq<QueuedView>)
    requires
        queue_inv(q, played),
    ensures
        queue_inv(
            poll_spec(q).0,
            match poll_spec(q).1 {
                Some(t) => played.push(t),
                None => played,
            },
        ),
{
    let after = poll_spec(q).0;
    match poll_spec(q).1 {
        Some(track) => {
            let now = played.push(track);
            assert(track == q.queue[0]);
            assert(after.queue == q.queue.drop_first());
            assert forall|i: int| 0 <= i < after.queue.len() implies #[trigger] after.queue[i]
                == q.queue[i + 1] by {}
            assert forall|i: int, j: int| 0 <= i < j < after.queue.len() implies precedes(
                #[trigger] after.queue[i],
                #[trigger] after.queue[j],
            ) by {
                assert(after.queue[i] == q.queue[i + 1] && after.queue[j] == q.queue[j + 1]);
            }
            assert forall|i: int| 0 <= i < after.queue.len() implies (
            #[trigger] after.queue[i]).request < after.next_request by {
                assert(after.queue[i] == q.queue[i + 1]);
            }
            assert forall|i: int| 0 <= i < after.queue.len() implies below_next(after.open)(
                #[trigger] after.queue[i],
            ) by {
                assert(after.queue[i] == q.queue[i + 1]);
                assert(below_next(q.open)(q.queue[i + 1]));
            }
            assert forall|i: int, j: int| 0 <= i < j < now.len() implies precedes(
                #[trigger] now[i],
                #[trigger] now[j],
            ) by {
                if j < played.len() {
                    assert(now[i] == played[i] && now[j] == played[j]);
                } else {
                    assert(now[i] == played[i]);
                    if i < played.len() - 1 {
                        assert(precedes(played[i], played[played.len() - 1]));
                    }
                    assert(precedes(played.last(), q.queue[0]));
                }
            }
            assert(now.last() == track);
            assert forall|i: int| 0 <= i < after.queue.len() implies precedes(
                track,
                #[trigger] after.queue[i],
            ) by {
                assert(after.queue[i] == q.queue[i + 1]);
                assert(precedes(q.queue[0], q.queue[i + 1]));
            }
            assert forall|k: int| 0 <= k < after.open.len() implies delivers_after(track)(
                #[trigger] after.open[k],
            ) by {
                assert(q.open[k].id >= track.request);
                assert(below_next(q.open)(q.queue[0]));
            }
        },
        None => {},
    }
}

/// Whatever is asked of a queue, the invariant holds afterwards.
proof fn lemma_apply_keeps_inv(q: QueueView, played: Seq<QueuedView>, op: QueueOp)
    requires
        queue_inv(q, played),
    ensures
        queue_inv(
            queue_apply(q, op).0,
            match queue_apply(q, op).1 {
                Some(t) => played.push(t),
                None => played,
            },
        ),
{
    match op {
        QueueOp::AttachSink => {},
        QueueOp::DetachSink => {},
        QueueOp::Begin => {
            lemma_begin_keeps_inv(q, played);
        },
        QueueOp::Submit { request, ordinal, bytes } => {
            lemma_submit_keeps_inv(q, played, request, ordinal, bytes);
        },
        QueueOp::Finish { request } => {
            lemma_close_keeps_inv(q, played, request, false);
        },
        QueueOp::Abort { request } => {
            lemma_close_keeps_inv(q, played, request, true);
        },
        QueueOp::Enqueue { segments } => {
            lemma_enqueue_keeps_inv(q, played, segments);
        },
        QueueOp::Poll => {
            lemma_poll_keeps_inv(q, played);
        },
        QueueOp::TrackEnded => {},
    }
}

/// The invariant holds of every queue that a run of calls leaves behind.
pub proof fn lemma_queue_inv(ops: Seq<QueueOp>)
    ensures
        queue_inv(queue_run(ops).0, queue_run(ops).1),
    decreases ops.len(),
{
    if ops.len() > 0 {
        lemma_queue_inv(ops.drop_last());
        let (before, played) = queue_run(ops.drop_last());
        lemma_apply_keeps_inv(before, played, ops.last());
    }
}

/// Tracks are handed out request by request, in the order in which the
/// requests were opened, and within a request in the order of the ordinals,
/// however the calls of the producers interleave: of two tracks, the one
/// handed out first belongs to the earlier request, or to the same request
/// and has the smaller ordinal.
pub proof fn law_tracks_in_play_order(ops: Seq<QueueOp>)
    ensures
        in_play_order(queue_run(ops).1),
{
    lemma_queue_inv(ops);
}

/// A session plays one track at a time: a call hands out a track only while
/// the session is idle, and leaves it playing.
pub proof fn law_single_active_playback(q: QueueView)
    ensures
        poll_spec(q).1 is Some ==> !q.playing && poll_spec(q).0.playing,
        q.playing ==> poll_spec(q) == (q, None::<QueuedView>),
{
}

/// The call hands the segment in: by itself, or as one of the segments of a
/// whole request, at the place of its ordinal.
pub open spec fn hands_in(op: QueueOp, x: QueuedView) -> bool {
    match op {
        QueueOp::Submit { request, ordinal, bytes } => request == x.request && ordinal
            == x.ordinal && bytes == x.bytes,
        QueueOp::Enqueue { segments } => x.ordinal < segments.len() && segments[x.ordinal as int]
            == x.bytes,
        _ => false,
    }
}

/// The segment was handed in by one of the calls.
pub open spec fn was_submitted(ops: Seq<QueueOp>, x: QueuedView) -> bool {
    exists|j: int| 0 <= j < ops.len() && hands_in(#[trigger] ops[j], x)
}

/// What was handed in by the calls so far was handed in by the calls so
/// far and one more.
proof fn lemma_was_submitted_grows(ops: Seq<QueueOp>, x: QueuedView)
    requires
        ops.len() > 0,
        was_submitted(ops.drop_last(), x),
    ensures
        was_submitted(ops, x),
{
    let j = choose|j: int|
        0 <= j < ops.drop_last().len() && hands_in(#[trigger] ops.drop_last()[j], x);
    assert(ops[j] == ops.drop_last()[j]);
}

/// Whatever waits in the queue or was handed out as a track was handed in.
proof fn lemma_nothing_is_made_up(ops: Seq<QueueOp>)
    ensures
        all_segments(queue_run(ops).0.queue, |x: QueuedView| was_submitted(ops, x)),
        all_segments(queue_run(ops).1, |x: QueuedView| was_submitted(ops, x)),
    decreases ops.len(),
{
    if ops.len() > 0 {
        let earlier = ops.drop_last();
        lemma_nothing_is_made_up(earlier);
        lemma_queue_inv(earlier);
        let (before, played) = queue_run(earlier);
        let (after, now) = queue_run(ops);
        let op = ops.last();
        assert forall|i: int| 0 <= i < before.queue.len() implies was_submitted(
            ops,
            #[trigger] before.queue[i],
        ) by {
            lemma_was_submitted_grows(ops, before.queue[i]);
        }
        assert forall|i: int| 0 <= i < played.len() implies was_submitted(
            ops,
            #[trigger] played[i],
        ) by {
            lemma_was_submitted_grows(ops, played[i]);
        }
        assert forall|i: int| 0 <= i < after.queue.len() implies was_submitted(
            ops,
            #[trigger] after.queue[i],
        ) by {
            let x = after.queue[i];
            match op {
                QueueOp::Submit { request, ordinal, bytes } => {
                    if after != before {
                        lemma_insert_position(before.queue, request);
                        let at = insert_position(before.queue, request);
                        if i < at {
                            assert(x == before.queue[i]);
                        } else if i > at {
                            assert(x == before.queue[i - 1]);
                        } else {
                            assert(hands_in(ops[ops.len() - 1], x));
                        }
                    }
                },
                QueueOp::Abort { request } => {
                    if after != before {
                        lemma_without_request(before.queue, request);
                        assert(before.queue.contains(x));
                        let at = choose|at: int|
                            0 <= at < before.queue.len() && before.queue[at] == x;
                        assert(was_submitted(ops, before.queue[at]));
                    }
                },
                QueueOp::Enqueue { segments } => {
                    if enqueue_request_spec(before, segments).1 is Ok {
                        law_enqueued_request_is_whole(before, played, segments);
                        if i < before.queue.len() {
                            assert(x == before.queue[i]);
                        } else {
                            assert(x == request_items(before.next_request, segments)[i
                                - before.queue.len()]);
                            assert(hands_in(ops[ops.len() - 1], x));
                        }
                    }
                },
                QueueOp::Poll => {
                    if after != before {
                        assert(x == before.queue[i + 1]);
                    }
                },
                _ => {},
            }
        }
        assert forall|i: int| 0 <= i < now.len() implies was_submitted(ops, #[trigger] now[i]) by {
            if i < played.len() {
                assert(now[i] == played[i]);
            } else {
                assert(now[i] == before.queue[0]);
            }
        }
    }
}

/// The queue makes nothing up: every track that it hands out is a segment
/// that was handed in, with the request, the ordinal and the audio that it
/// was handed in with.
pub proof fn law_only_submitted_tracks_are_played(ops: Seq<QueueOp>, k: int)
    requires
        0 <= k < queue_run(ops).1.len(),
    ensures
        was_submitted(ops, queue_run(ops).1[k]),
{
    lemma_nothing_is_made_up(ops);
}

/// A request that is not among the open ones and is opened last stands at
/// the end of the open requests.
proof fn lemma_open_position_of_last(open: Seq<OpenView>, entry: OpenView)
    requires
        forall|k: int| 0 <= k < open.len() ==> (#[trigger] open[k]).id != entry.id,
    ensures
        open_position(open.push(entry), entry.id) == open.len(),
    decreases open.len(),
{
    if open.len() > 0 {
        let rest = open.drop_first();
        assert forall|k: int| 0 <= k < rest.len() implies (#[trigger] rest[k]).id != entry.id by {
            assert(rest[k] == open[k + 1]);
        }
        lemma_open_position_of_last(rest, entry);
        assert(open.push(entry).drop_first() =~= rest.push(entry));
        assert(open.push(entry)[0] == open[0]);
    }
}

/// A segment of a request that is later than none in the queue joins the
/// queue at its end.
proof fn lemma_insert_position_at_end(queue: Seq<QueuedView>, request: nat)
    requires
        forall|i: int| 0 <= i < queue.len() ==> (#[trigger] queue[i]).request <= request,
    ensures
        insert_position(queue, request) == queue.len(),
    decreases queue.len(),
{
    if queue.len() > 0 {
        let rest = queue.drop_first();
        assert forall|i: int| 0 <= i < rest.len() implies (#[trigger] rest[i]).request
            <= request by {
            assert(rest[i] == queue[i + 1]);
        }
        lemma_insert_position_at_end(rest, request);
    }
}

/// The segments of a request that was opened last join the queue at its
/// end, one behind the other, and none is refused.
proof fn lemma_submit_all(q: QueueView, played: Seq<QueuedView>, segments: Seq<Seq<u8>>, count: int)
    requires
        queue_inv(q, played),
        begin_spec(q).1 is Ok,
        0 <= count <= segments.len(),
    ensures
        submit_all(begin_spec(q).0, q.next_request, segments, count) == (QueueView {
            open: q.open.push(OpenView { id: q.next_request, next_ordinal: count as nat }),
            queue: q.queue + request_items(q.next_request, segments).take(count),
            ..begin_spec(q).0
        }),
        queue_inv(submit_all(begin_spec(q).0, q.next_request, segments, count), played),
    decreases count,
{
    let id = q.next_request;
    let opened = begin_spec(q).0;
    let items = request_items(id, segments);
    lemma_begin_keeps_inv(q, played);
    if count == 0 {
        assert(q.queue + items.take(0) =~= q.queue);
    } else {
        lemma_submit_all(q, played, segments, count - 1);
        let before = submit_all(opened, id, segments, count - 1);
        let entry = OpenView { id, next_ordinal: (count - 1) as nat };
        assert forall|k: int| 0 <= k < q.open.len() implies (#[trigger] q.open[k]).id != id by {}
        lemma_open_position_of_last(q.open, entry);
        assert forall|i: int| 0 <= i < before.queue.len() implies (
        #[trigger] before.queue[i]).request <= id by {
            if i < q.queue.len() {
                assert(before.queue[i] == q.queue[i]);
            } else {
                assert(before.queue[i] == items[i - q.queue.len()]);
            }
        }
        lemma_insert_position_at_end(before.queue, id);
        lemma_submit_keeps_inv(before, played, id, (count - 1) as nat, segments[count - 1]);
        let after = submit_spec(before, id, (count - 1) as nat, segments[count - 1]).0;
        assert(after.open =~= q.open.push(OpenView { id, next_ordinal: count as nat }));
        assert(after.queue =~= q.queue + items.take(count));
    }
}

/// A request that is handed in whole is in the queue whole: all of its
/// segments, in the order of their ordinals, which run from 0, none missing
/// and none twice, behind everything that waited before and with nothing of
/// another request between them. The request is closed, and the requests
/// that were open are as they were.
pub proof fn law_enqueued_request_is_whole(
    q: QueueView,
    played: Seq<QueuedView>,
    segments: Seq<Seq<u8>>,
)
    requires
        queue_inv(q, played),
        enqueue_request_spec(q, segments).1 is Ok,
    ensures
        enqueue_request_spec(q, segments).1 == Ok::<nat, crate::playback::QueueError>(
            q.next_request,
        ),
        enqueue_request_spec(q, segments).0 == (QueueView {
            next_request: q.next_request + 1,
            queue: q.queue + request_items(q.next_request, segments),
            ..q
        }),
        queue_inv(enqueue_request_spec(q, segments).0, played),
{
    let id = q.next_request;
    let n = segments.len() as int;
    lemma_submit_all(q, played, segments, n);
    let filled = submit_all(begin_spec(q).0, id, segments, n);
    let entry = OpenView { id, next_ordinal: n as nat };
    assert forall|k: int| 0 <= k < q.open.len() implies (#[trigger] q.open[k]).id != id by {}
    lemma_open_position_of_last(q.open, entry);
    lemma_close_keeps_inv(filled, played, id, false);
    assert(filled.open.remove(q.open.len() as int) =~= q.open);
    assert(request_items(id, segments).take(n) =~= request_items(id, segments));
}

/// A whole request is a run of calls like any other: what holds of every
/// run of calls holds with whole requests among them.
pub proof fn lemma_enqueue_keeps_inv(q: QueueView, played: Seq<QueuedView>, segments: Seq<Seq<u8>>)
    requires
        queue_inv(q, played),
    ensures
        queue_inv(enqueue_request_spec(q, segments).0, played),
{
    if enqueue_request_spec(q, segments).1 is Ok {
        law_enqueued_request_is_whole(q, played, segments);
    }
}

/// A request is played only once it is closed: whatever track has been
/// handed out, its request is not open, so that nothing can be added to it
/// and it cannot be given up any more.
pub proof fn law_played_requests_are_closed(ops: Seq<QueueOp>, k: int)
    requires
        0 <= k < queue_run(ops).1.len(),
    ensures
        forall|o: int|
            0 <= o < queue_run(ops).0.open.len() ==> (#[trigger] queue_run(ops).0.open[o]).id
                > queue_run(ops).1[k].request,
{
    lemma_queue_inv(ops);
    let (q, played) = queue_run(ops);
    let last = played.last();
    if k < played.len() - 1 {
        assert(precedes(played[k], played[played.len() - 1]));
    }
    assert forall|o: int| 0 <= o < q.open.len() implies (#[trigger] q.open[o]).id
        > played[k].request by {
        assert(delivers_after(last)(q.open[o]));
    }
}

/// Nothing of the request is left: it is not open, none of its segments
/// waits, none was played, and its number will not be given out again.
pub open spec fn request_is_gone(q: QueueView, played: Seq<QueuedView>, request: nat) -> bool {
    &&& request < q.next_request
    &&& forall|o: int| 0 <= o < q.open.len() ==> (#[trigger] q.open[o]).id != request
    &&& forall|i: int| 0 <= i < q.queue.len() ==> (#[trigger] q.queue[i]).request != request
    &&& forall|k: int| 0 <= k < played.len() ==> (#[trigger] played[k]).request != request
}

/// A request that is gone stays gone, whatever is asked of the queue.
proof fn lemma_gone_stays_gone(q: QueueView, played: Seq<QueuedView>, op: QueueOp, request: nat)
    requires
        queue_inv(q, played),
        request_is_gone(q, played, request),
    ensures
        request_is_gone(
            queue_apply(q, op).0,
            match queue_apply(q, op).1 {
                Some(t) => played.push(t),
                None => played,
            },
            request,
        ),
{
    let after = queue_apply(q, op).0;
    let now = match queue_apply(q, op).1 {
        Some(t) => played.push(t),
        None => played,
    };
    match op {
        QueueOp::Begin => {
            assert forall|o: int| 0 <= o < after.open.len() implies (#[trigger] after.open[o]).id
                != request by {
                if o < q.open.len() {
                    assert(after.open[o] == q.open[o]);
                }
            }
        },
        QueueOp::Submit { request: r, ordinal, bytes } => {
            lemma_open_position(q.open, r);
            lemma_insert_position(q.queue, r);
            if after != q {
                let p = open_position(q.open, r);
                let at = insert_position(q.queue, r);
                assert(q.open[p].id == r);
                assert forall|o: int| 0 <= o < after.open.len() implies (
                #[trigger] after.open[o]).id != request by {
                    assert(after.open[o].id == q.open[o].id);
                }
                assert forall|i: int| 0 <= i < after.queue.len() implies (
                #[trigger] after.queue[i]).request != request by {
                    if i < at {
                        assert(after.queue[i] == q.queue[i]);
                    } else if i > at {
                        assert(after.queue[i] == q.queue[i - 1]);
                    }
                }
            }
        },
        QueueOp::Finish { request: r } => {
            lemma_open_position(q.open, r);
            let p = open_position(q.open, r);
            if p < q.open.len() {
                assert forall|o: int| 0 <= o < after.open.len() implies (
                #[trigger] after.open[o]).id != request by {
                    assert(after.open[o] == q.open[if o < p {
                        o
                    } else {
                        o + 1
                    }]);
                }
            }
        },
        QueueOp::Abort { request: r } => {
            lemma_open_position(q.open, r);
            let p = open_position(q.open, r);
            if p < q.open.len() {
                assert forall|o: int| 0 <= o < after.open.len() implies (
                #[trigger] after.open[o]).id != request by {
                    assert(after.open[o] == q.open[if o < p {
                        o
                    } else {
                        o + 1
                    }]);
                }
                lemma_without_keeps(q.queue, r, |x: QueuedView| x.request != request);
            }
        },
        QueueOp::Enqueue { segments } => {
            if enqueue_request_spec(q, segments).1 is Ok {
                law_enqueued_request_is_whole(q, played, segments);
                assert forall|i: int| 0 <= i < after.queue.len() implies (
                #[trigger] after.queue[i]).request != request by {
                    if i < q.queue.len() {
                        assert(after.queue[i] == q.queue[i]);
                    } else {
                        assert(after.queue[i] == request_items(q.next_request, segments)[i
                            - q.queue.len()]);
                    }
                }
            }
        },
        QueueOp::Poll => {
            if after != q {
                assert forall|i: int| 0 <= i < after.queue.len() implies (
                #[trigger] after.queue[i]).request != request by {
                    assert(after.queue[i] == q.queue[i + 1]);
                }
                assert forall|k: int| 0 <= k < now.len() implies (#[trigger] now[k]).request
                    != request by {
                    if k < played.len() {
                        assert(now[k] == played[k]);
                    } else {
                        assert(now[k] == q.queue[0]);
                    }
                }
            }
        },
        _ => {},
    }
}

/// Behind the call that gives a request up, and behind every call after
/// it, the request is gone.
proof fn lemma_gone_after_abort(ops: Seq<QueueOp>, j: int, n: int, request: nat)
    requires
        0 <= j < n <= ops.len(),
        ops[j] == (QueueOp::Abort { request }),
        abort_spec(queue_run(ops.take(j)).0, request).1 is Ok,
    ensures
        request_is_gone(queue_run(ops.take(n)).0, queue_run(ops.take(n)).1, request),
    decreases n,
{
    let run = ops.take(n);
    assert(run.drop_last() =~= ops.take(n - 1));
    assert(run.last() == ops[n - 1]);
    lemma_queue_inv(ops.take(n - 1));
    let (before, played) = queue_run(ops.take(n - 1));
    if n == j + 1 {
        let after = abort_spec(before, request).0;
        lemma_open_position(before.open, request);
        let p = open_position(before.open, request);
        assert(before.open[p].id == request);
        assert forall|o: int| 0 <= o < after.open.len() implies (#[trigger] after.open[o]).id
            != request by {
            let was = if o < p {
                o
            } else {
                o + 1
            };
            assert(after.open[o] == before.open[was]);
            if was < p {
                assert(before.open[was].id < before.open[p].id);
            } else {
                assert(before.open[p].id < before.open[was].id);
            }
        }
        lemma_without_request(before.queue, request);
        assert forall|k: int| 0 <= k < played.len() implies (#[trigger] played[k]).request
            != request by {
            assert(delivers_after(played.last())(before.open[p]));
            if k < played.len() - 1 {
                assert(precedes(played[k], played[played.len() - 1]));
            }
        }
    } else {
        lemma_gone_after_abort(ops, j, n - 1, request);
        lemma_gone_stays_gone(before, played, ops[n - 1], request);
    }
}

/// A request that is given up plays nothing: no track that the queue has
/// handed out, before or after, belongs to a request that was given up
/// while it was open.
pub proof fn law_aborted_request_is_never_played(ops: Seq<QueueOp>, j: int, request: nat)
    requires
        0 <= j < ops.len(),
        ops[j] == (QueueOp::Abort { request }),
        abort_spec(queue_run(ops.take(j)).0, request).1 is Ok,
    ensures
        forall|k: int|
            0 <= k < queue_run(ops).1.len() ==> (#[trigger] queue_run(ops).1[k]).request
                != request,
{
    lemma_gone_after_abort(ops, j, ops.len() as int, request);
    assert(ops.take(ops.len() as int) =~= ops);
}

} // verus!
