//! What holds of every split: the chunks fit the budget, are trimmed, and
//! together with the whitespace between them they are the text.

use crate::chunker::{
    chunks_of_pieces, cut_points, cuts_increase, is_sentence_end_spec, is_soft_break_spec,
    keep_nonempty,
    lemma_cut_points, lemma_cuts_ordered, lemma_cuts_positive, lemma_scan_wf, piece_chunks,
    piece_start, scan, slice_size, sliced_chunks, split_spec,
};
use crate::text::{all_whitespace, is_whitespace_spec, leading_whitespace, lemma_trim, trim};
use vstd::prelude::*;

verus! {

/// A chunk as a split of a long text yields it: not empty, within the
/// budget, with no whitespace at either end.
pub open spec fn well_shaped(chunk: Seq<char>, limit: int) -> bool {
    &&& 0 < chunk.len()
    &&& limit >= 1 ==> chunk.len() <= limit
    &&& !is_whitespace_spec(chunk[0])
    &&& !is_whitespace_spec(chunk.last())
}

/// Every chunk of the list is well shaped.
pub open spec fn all_well_shaped(chunks: Seq<Seq<char>>, limit: int) -> bool {
    forall|k: int| 0 <= k < chunks.len() ==> well_shaped(#[trigger] chunks[k], limit)
}

proof fn lemma_well_shaped_concat(a: Seq<Seq<char>>, b: Seq<Seq<char>>, limit: int)
    requires
        all_well_shaped(a, limit),
        all_well_shaped(b, limit),
    ensures
        all_well_shaped(a + b, limit),
{
    assert forall|k: int| 0 <= k < (a + b).len() implies well_shaped(
        #[trigger] (a + b)[k],
        limit,
    ) by {
        if k < a.len() {
            assert((a + b)[k] == a[k]);
        } else {
            assert((a + b)[k] == b[k - a.len()]);
        }
    }
}

proof fn lemma_kept_well_shaped(piece: Seq<char>, limit: int)
    requires
        limit >= 1 ==> piece.len() <= limit,
    ensures
        all_well_shaped(keep_nonempty(trim(piece)), limit),
{
    lemma_trim(piece);
}

proof fn lemma_sliced_well_shaped(t: Seq<char>, limit: int)
    ensures
        all_well_shaped(sliced_chunks(t, slice_size(limit)), limit),
    decreases t.len(),
{
    let size = slice_size(limit);
    if t.len() == 0 {
    } else if t.len() <= size {
        lemma_kept_well_shaped(t, limit);
    } else {
        lemma_kept_well_shaped(t.take(size), limit);
        lemma_sliced_well_shaped(t.skip(size), limit);
        lemma_well_shaped_concat(
            keep_nonempty(trim(t.take(size))),
            sliced_chunks(t.skip(size), size),
            limit,
        );
    }
}

proof fn lemma_piece_well_shaped(piece: Seq<char>, limit: int)
    requires
        limit >= 0,
    ensures
        all_well_shaped(piece_chunks(piece, limit), limit),
{
    let t = trim(piece);
    lemma_trim(piece);
    if t.len() <= limit {
    } else {
        lemma_sliced_well_shaped(t, limit);
    }
}

proof fn lemma_pieces_well_shaped(text: Seq<char>, cuts: Seq<int>, limit: int, count: int)
    requires
        limit >= 0,
    ensures
        all_well_shaped(chunks_of_pieces(text, cuts, limit, count), limit),
    decreases count,
{
    if count > 0 {
        lemma_pieces_well_shaped(text, cuts, limit, count - 1);
        let piece = text.subrange(piece_start(cuts, count - 1), cuts[count - 1]);
        lemma_piece_well_shaped(piece, limit);
        lemma_well_shaped_concat(
            chunks_of_pieces(text, cuts, limit, count - 1),
            piece_chunks(piece, limit),
            limit,
        );
    }
}

/// A text that fits the budget is one chunk: the text, trimmed.
pub proof fn law_short_text_is_one_chunk(text: Seq<char>, limit: int)
    requires
        text.len() <= limit,
    ensures
        split_spec(text, limit) == seq![trim(text)],
{
}

/// No chunk is longer than the budget, whatever the text, as long as the
/// budget admits at least one character.
pub proof fn law_chunks_fit_budget(text: Seq<char>, limit: int)
    requires
        limit >= 1,
    ensures
        forall|k: int|
            0 <= k < split_spec(text, limit).len() ==> (#[trigger] split_spec(text, limit)[k]).len()
                <= limit,
{
    if text.len() <= limit {
        lemma_trim(text);
    } else {
        let cuts = cut_points(text, limit);
        lemma_pieces_well_shaped(text, cuts, limit, cuts.len() as int);
    }
}

/// No chunk starts or ends with whitespace, and a text over the budget has
/// no empty chunk.
pub proof fn law_chunks_are_trimmed(text: Seq<char>, limit: int)
    requires
        limit >= 0,
    ensures
        forall|k: int|
            #![trigger split_spec(text, limit)[k]]
            0 <= k < split_spec(text, limit).len() ==> {
                let c = split_spec(text, limit)[k];
                &&& text.len() > limit ==> c.len() > 0
                &&& c.len() > 0 ==> !is_whitespace_spec(c[0]) && !is_whitespace_spec(c.last())
            },
{
    if text.len() <= limit {
        lemma_trim(text);
    } else {
        let cuts = cut_points(text, limit);
        lemma_pieces_well_shaped(text, cuts, limit, cuts.len() as int);
    }
}

/// The text that `chunks` make when `gaps[0]` stands in front of the first,
/// `gaps[k]` between chunk `k - 1` and chunk `k`, and the last gap at the end.
pub open spec fn interleave(gaps: Seq<Seq<char>>, chunks: Seq<Seq<char>>) -> Seq<char>
    decreases chunks.len(),
{
    if chunks.len() == 0 {
        gaps[0]
    } else {
        interleave(gaps.drop_last(), chunks.drop_last()) + chunks.last() + gaps.last()
    }
}

/// `text` is `chunks`, in order, with the whitespace `gaps` around and
/// between them: nothing but whitespace is missing from the chunks.
pub open spec fn separated_by(text: Seq<char>, chunks: Seq<Seq<char>>, gaps: Seq<Seq<char>>) -> bool {
    &&& gaps.len() == chunks.len() + 1
    &&& forall|k: int| 0 <= k < gaps.len() ==> all_whitespace(#[trigger] gaps[k])
    &&& interleave(gaps, chunks) == text
}

/// `text` is `chunks`, in order, with nothing but whitespace around and
/// between them.
pub open spec fn whitespace_separated(text: Seq<char>, chunks: Seq<Seq<char>>) -> bool {
    exists|gaps: Seq<Seq<char>>| separated_by(text, chunks, gaps)
}

proof fn lemma_whitespace_concat(a: Seq<char>, b: Seq<char>)
    requires
        all_whitespace(a),
        all_whitespace(b),
    ensures
        all_whitespace(a + b),
{
    assert forall|i: int| 0 <= i < (a + b).len() implies is_whitespace_spec(
        #[trigger] (a + b)[i],
    ) by {
        if i < a.len() {
            assert((a + b)[i] == a[i]);
        } else {
            assert((a + b)[i] == b[i - a.len()]);
        }
    }
}

/// Two separated texts, one behind the other, are separated by the gaps of
/// both, the last of the first joined to the first of the second.
proof fn lemma_join(
    a: Seq<char>,
    x: Seq<Seq<char>>,
    ga: Seq<Seq<char>>,
    b: Seq<char>,
    y: Seq<Seq<char>>,
    gb: Seq<Seq<char>>,
) -> (g: Seq<Seq<char>>)
    requires
        separated_by(a, x, ga),
        separated_by(b, y, gb),
    ensures
        separated_by(a + b, x + y, g),
    decreases y.len(),
{
    if y.len() == 0 {
        let g = ga.drop_last().push(ga.last() + gb[0]);
        assert(x + y =~= x);
        assert(b == gb[0]);
        lemma_whitespace_concat(ga.last(), gb[0]);
        assert(g.drop_last() =~= ga.drop_last());
        assert forall|k: int| 0 <= k < g.len() implies all_whitespace(#[trigger] g[k]) by {
            if k < g.len() - 1 {
                assert(g[k] == ga[k]);
            }
        }
        if x.len() == 0 {
            assert(g[0] == ga[0] + gb[0]);
        } else {
            let head = interleave(ga.drop_last(), x.drop_last());
            assert(interleave(g, x) == head + x.last() + (ga.last() + b));
            assert(head + x.last() + (ga.last() + b) =~= (head + x.last() + ga.last()) + b);
        }
        g
    } else {
        let b0 = interleave(gb.drop_last(), y.drop_last());
        assert(separated_by(b0, y.drop_last(), gb.drop_last())) by {
            assert forall|k: int| 0 <= k < gb.drop_last().len() implies all_whitespace(
                #[trigger] gb.drop_last()[k],
            ) by {
                assert(gb.drop_last()[k] == gb[k]);
            }
        }
        let g0 = lemma_join(a, x, ga, b0, y.drop_last(), gb.drop_last());
        let g = g0.push(gb.last());
        assert(g.drop_last() =~= g0);
        assert((x + y).drop_last() =~= x + y.drop_last());
        assert((x + y).last() == y.last());
        assert forall|k: int| 0 <= k < g.len() implies all_whitespace(#[trigger] g[k]) by {
            if k < g.len() - 1 {
                assert(g[k] == g0[k]);
            } else {
                assert(g[k] == gb[gb.len() - 1]);
            }
        }
        assert(interleave(g, x + y) == (a + b0) + y.last() + gb.last());
        assert((a + b0) + y.last() + gb.last() =~= a + (b0 + y.last() + gb.last()));
        g
    }
}

/// A text of whitespace alone is separated into no chunks.
proof fn lemma_gap_only(w: Seq<char>) -> (g: Seq<Seq<char>>)
    requires
        all_whitespace(w),
    ensures
        separated_by(w, Seq::<Seq<char>>::empty(), g),
{
    seq![w]
}

/// A text is its trimmed form between its leading and trailing whitespace.
proof fn lemma_trimmed_separated(r: Seq<char>) -> (g: Seq<Seq<char>>)
    ensures
        separated_by(r, seq![trim(r)], g),
{
    lemma_trim(r);
    let a = leading_whitespace(r) as int;
    let t = trim(r);
    let g = seq![r.take(a), r.skip(a + t.len())];
    let chunks = seq![t];
    assert(g.drop_last() =~= seq![r.take(a)]);
    assert(chunks.drop_last() =~= Seq::<Seq<char>>::empty());
    assert(interleave(g.drop_last(), chunks.drop_last()) == r.take(a));
    assert(interleave(g, chunks) == r.take(a) + t + r.skip(a + t.len()));
    g
}

/// A text is its trimmed form, where that is not empty, between its leading
/// and trailing whitespace.
proof fn lemma_kept_separated(r: Seq<char>) -> (g: Seq<Seq<char>>)
    ensures
        separated_by(r, keep_nonempty(trim(r)), g),
{
    lemma_trim(r);
    if trim(r).len() == 0 {
        lemma_gap_only(r)
    } else {
        lemma_trimmed_separated(r)
    }
}

proof fn lemma_sliced_separated(t: Seq<char>, size: int) -> (g: Seq<Seq<char>>)
    requires
        size >= 1,
    ensures
        separated_by(t, sliced_chunks(t, size), g),
    decreases t.len(),
{
    if t.len() == 0 {
        lemma_gap_only(t)
    } else if t.len() <= size {
        lemma_kept_separated(t)
    } else {
        let g1 = lemma_kept_separated(t.take(size));
        let g2 = lemma_sliced_separated(t.skip(size), size);
        assert(t.take(size) + t.skip(size) =~= t);
        lemma_join(
            t.take(size),
            keep_nonempty(trim(t.take(size))),
            g1,
            t.skip(size),
            sliced_chunks(t.skip(size), size),
            g2,
        )
    }
}

proof fn lemma_piece_separated(piece: Seq<char>, limit: int) -> (g: Seq<Seq<char>>)
    ensures
        separated_by(piece, piece_chunks(piece, limit), g),
{
    let t = trim(piece);
    if t.len() <= limit {
        lemma_kept_separated(piece)
    } else {
        lemma_trim(piece);
        let a = leading_whitespace(piece) as int;
        let lead = piece.take(a);
        let trail = piece.skip(a + t.len());
        let chunks = sliced_chunks(t, slice_size(limit));
        let none = Seq::<Seq<char>>::empty();
        let g_lead = lemma_gap_only(lead);
        let g_mid = lemma_sliced_separated(t, slice_size(limit));
        let g_trail = lemma_gap_only(trail);
        let g1 = lemma_join(lead, none, g_lead, t, chunks, g_mid);
        assert(none + chunks =~= chunks);
        let g2 = lemma_join(lead + t, chunks, g1, trail, none, g_trail);
        assert(chunks + none =~= chunks);
        g2
    }
}

proof fn lemma_pieces_separated(text: Seq<char>, cuts: Seq<int>, limit: int, count: int) -> (g: Seq<
    Seq<char>,
>)
    requires
        cuts_increase(cuts),
        0 <= count <= cuts.len(),
        cuts.len() > 0 ==> cuts.last() <= text.len(),
    ensures
        separated_by(
            text.take(piece_start(cuts, count)),
            chunks_of_pieces(text, cuts, limit, count),
            g,
        ),
    decreases count,
{
    if count == 0 {
        assert(text.take(0) =~= Seq::<char>::empty());
        lemma_gap_only(text.take(0))
    } else {
        let start = piece_start(cuts, count - 1);
        let end = cuts[count - 1];
        lemma_cuts_positive(cuts, count - 1);
        lemma_cuts_ordered(cuts, count - 1, cuts.len() - 1);
        let done = lemma_pieces_separated(text, cuts, limit, count - 1);
        let piece = text.subrange(start, end);
        let g_piece = lemma_piece_separated(piece, limit);
        assert(text.take(start) + piece =~= text.take(end));
        lemma_join(
            text.take(start),
            chunks_of_pieces(text, cuts, limit, count - 1),
            done,
            piece,
            piece_chunks(piece, limit),
            g_piece,
        )
    }
}

/// Nothing is lost in a split but whitespace: the text is its chunks, in
/// order, with whitespace alone in front of, between and behind them. The
/// whitespace is returned, gap by gap.
pub proof fn law_split_loses_only_whitespace(text: Seq<char>, limit: int) -> (gaps: Seq<Seq<char>>)
    requires
        limit >= 0,
    ensures
        separated_by(text, split_spec(text, limit), gaps),
        whitespace_separated(text, split_spec(text, limit)),
{
    if text.len() <= limit {
        lemma_trimmed_separated(text)
    } else {
        let cuts = cut_points(text, limit);
        lemma_cut_points(text, limit);
        let g = lemma_pieces_separated(text, cuts, limit, cuts.len() as int);
        assert(text.take(text.len() as int) =~= text);
        g
    }
}

/// A sentence terminator comes before a soft break. At a position that
/// holds a sentence terminator no chunk is closed behind an earlier soft
/// break: the sentence that ends there is closed, and the pending soft break
/// is forgotten. Where a soft break was pending, the sentence joins the open
/// chunk and the chunk stays open: it is within the budget, since it had not
/// passed the threshold one character earlier.
pub proof fn law_terminator_wins_over_soft_break(text: Seq<char>, limit: int, i: int)
    requires
        limit >= 1,
        0 <= i < text.len(),
        is_sentence_end_spec(text[i]),
    ensures
        ({
            let before = scan(text, limit, i);
            let after = scan(text, limit, i + 1);
            &&& after.sentence_start == i + 1
            &&& after.pending is None
            &&& after.cuts == before.cuts || after.cuts == before.cuts.push(
                before.sentence_start,
            )
            &&& before.pending is Some ==> after.cuts == before.cuts && after.chunk_start
                == before.chunk_start && i + 1 - after.chunk_start <= limit
        }),
{
    lemma_scan_wf(text, limit, i);
}

/// The position stands behind a break: at the start or the end of the text,
/// or behind a sentence terminator or a soft break.
pub open spec fn behind_break(text: Seq<char>, at: int) -> bool {
    at <= 0 || at >= text.len() || is_sentence_end_spec(text[at - 1]) || is_soft_break_spec(
        text[at - 1],
    )
}

/// The scan keeps to the breaks: the open sentence starts behind one, the
/// pending soft break is one, and every cut made so far stands behind one.
proof fn lemma_scan_keeps_to_breaks(text: Seq<char>, limit: int, i: int)
    requires
        0 <= i <= text.len(),
    ensures
        behind_break(text, scan(text, limit, i).sentence_start),
        scan(text, limit, i).pending matches Some(b) ==> 0 <= b < text.len()
            && is_soft_break_spec(text[b]),
        forall|k: int|
            0 <= k < scan(text, limit, i).cuts.len() ==> behind_break(
                text,
                #[trigger] scan(text, limit, i).cuts[k],
            ),
    decreases i,
{
    if i > 0 {
        lemma_scan_keeps_to_breaks(text, limit, i - 1);
        lemma_scan_wf(text, limit, i - 1);
        let s = scan(text, limit, i - 1);
        let r = scan(text, limit, i);
        assert forall|k: int| 0 <= k < r.cuts.len() implies behind_break(
            text,
            #[trigger] r.cuts[k],
        ) by {
            if k < s.cuts.len() {
                assert(r.cuts[k] == s.cuts[k]);
            }
        }
    }
}

/// The scan cuts a text at its breaks only: every raw piece ends behind a
/// sentence terminator or a soft break, or at the end of the text. A chunk
/// ends anywhere else only where a piece without a break is over the budget
/// and is sliced by count.
pub proof fn law_cuts_stand_behind_breaks(text: Seq<char>, limit: int, k: int)
    requires
        0 <= k < cut_points(text, limit).len(),
    ensures
        behind_break(text, cut_points(text, limit)[k]),
{
    let n = text.len() as int;
    lemma_scan_keeps_to_breaks(text, limit, n);
    let s = scan(text, limit, n);
    if k < s.cuts.len() {
        assert(cut_points(text, limit)[k] == s.cuts[k]);
    }
}

} // verus!
