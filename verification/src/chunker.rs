//! Splitting a text into chunks that respect a backend's character budget.
//!
//! A text that fits the budget is one chunk. A longer text is scanned once,
//! character by character, and cut into raw pieces: preferably after the
//! last comma-like soft break once the open chunk comes close to the budget,
//! otherwise between sentences when the next sentence would overflow it. A
//! sentence terminator comes before a soft break: where a sentence ends, no
//! chunk is closed behind an earlier comma.
//! Each raw piece is trimmed; a piece that is still over the budget is
//! sliced by character count. Chunks that hold nothing but whitespace are
//! dropped.

use crate::chunker_laws::{
    law_chunks_are_trimmed, law_chunks_fit_budget, law_split_loses_only_whitespace,
    whitespace_separated,
};
use crate::text::{is_whitespace_spec, texts_of, trim, trim_bounds};
use vstd::prelude::*;

verus! {

/// The character budget of the sample-cloning backend.
pub const XTTS_CHAR_LIMIT: usize = 250;

/// How close to the budget, in characters, the open chunk must come before
/// it is closed at the last soft break.
pub const SOFT_BREAK_MARGIN: usize = 50;

/// Sentence terminators: `.`, `!`, `?` and their full-width forms.
pub open spec fn is_sentence_end_spec(c: char) -> bool {
    c == '.' || c == '!' || c == '?' || c == '\u{3002}' || c == '\u{FF01}' || c == '\u{FF1F}'
}

/// Soft breaks: comma, semicolon, colon, and their full-width forms.
pub open spec fn is_soft_break_spec(c: char) -> bool {
    c == ',' || c == '\u{3001}' || c == '\u{FF0C}' || c == ';' || c == '\u{FF1B}' || c == ':' || c
        == '\u{FF1A}'
}

/// The length of the open chunk from which on a pending soft break closes it.
pub open spec fn soft_threshold(limit: int) -> int {
    if limit >= SOFT_BREAK_MARGIN as int {
        limit - SOFT_BREAK_MARGIN as int
    } else {
        0
    }
}

/// State of the scan in front of position `i` of the text.
pub struct Scan {
    /// End positions of the raw pieces closed so far.
    pub cuts: Seq<int>,
    /// Where the open chunk starts.
    pub chunk_start: int,
    /// Where the open sentence starts.
    pub sentence_start: int,
    /// The last soft break of the open sentence up to which the open chunk
    /// still fits the budget.
    pub pending: Option<int>,
}

/// The soft break that is pending once the character at `i` has been looked at.
pub open spec fn pending_after(text: Seq<char>, limit: int, s: Scan, i: int) -> Option<int> {
    if is_soft_break_spec(text[i]) && i + 1 - s.chunk_start <= limit {
        Some(i)
    } else {
        s.pending
    }
}

/// Closing at the last soft break applies at `i`: one is pending, the open
/// chunk, up to and including `i`, has passed the threshold, and no sentence
/// ends at `i`. Where a sentence ends, the sentence terminator decides.
pub open spec fn soft_close_applies(text: Seq<char>, limit: int, s: Scan, i: int) -> bool {
    &&& !is_sentence_end_spec(text[i])
    &&& pending_after(text, limit, s, i) is Some
    &&& i + 1 - s.chunk_start > soft_threshold(limit)
}

/// One step of the scan: the state behind position `i`, from the state in
/// front of it.
///
/// At a sentence terminator, and at the end of the text, the sentence joins
/// the open chunk, unless the chunk would exceed the budget with it: then
/// the chunk is closed in front of the sentence. Anywhere else the chunk is
/// closed behind the pending soft break once it has passed the threshold.
pub open spec fn scan_step(text: Seq<char>, limit: int, s: Scan, i: int) -> Scan {
    if soft_close_applies(text, limit, s, i) {
        let cut = pending_after(text, limit, s, i)->0 + 1;
        Scan { cuts: s.cuts.push(cut), chunk_start: cut, sentence_start: cut, pending: None }
    } else if is_sentence_end_spec(text[i]) || i == text.len() - 1 {
        if i + 1 - s.chunk_start > limit && s.sentence_start > s.chunk_start {
            Scan {
                cuts: s.cuts.push(s.sentence_start),
                chunk_start: s.sentence_start,
                sentence_start: i + 1,
                pending: None,
            }
        } else {
            Scan { sentence_start: i + 1, pending: None, ..s }
        }
    } else {
        Scan { pending: pending_after(text, limit, s, i), ..s }
    }
}

/// The state of the scan in front of position `upto`.
pub open spec fn scan(text: Seq<char>, limit: int, upto: int) -> Scan
    decreases upto,
{
    if upto <= 0 {
        Scan { cuts: Seq::empty(), chunk_start: 0, sentence_start: 0, pending: None }
    } else {
        scan_step(text, limit, scan(text, limit, upto - 1), upto - 1)
    }
}

/// The cuts once the scan has reached the end of the text: what is left
/// after the last sentence joins the open chunk, unless that would exceed the
/// budget, and the open chunk is closed at the end of the text.
pub open spec fn finish_scan(text: Seq<char>, limit: int, s: Scan) -> Seq<int> {
    let n = text.len() as int;
    let overflow = s.sentence_start < n && n - s.chunk_start > limit && s.sentence_start
        > s.chunk_start;
    let cuts = if overflow {
        s.cuts.push(s.sentence_start)
    } else {
        s.cuts
    };
    let chunk_start = if overflow {
        s.sentence_start
    } else {
        s.chunk_start
    };
    if chunk_start < n {
        cuts.push(n)
    } else {
        cuts
    }
}

/// End positions of the raw pieces into which the scan cuts `text`.
pub open spec fn cut_points(text: Seq<char>, limit: int) -> Seq<int> {
    finish_scan(text, limit, scan(text, limit, text.len() as int))
}

/// Where the raw piece that ends at `cuts[j]` starts.
pub open spec fn piece_start(cuts: Seq<int>, j: int) -> int {
    if j <= 0 {
        0
    } else {
        cuts[j - 1]
    }
}

/// A chunk, unless it is empty.
pub open spec fn keep_nonempty(t: Seq<char>) -> Seq<Seq<char>> {
    if t.len() == 0 {
        Seq::empty()
    } else {
        seq![t]
    }
}

/// `t` sliced into runs of `size` characters, each trimmed, the empty ones
/// dropped.
pub open spec fn sliced_chunks(t: Seq<char>, size: int) -> Seq<Seq<char>>
    decreases t.len(),
{
    if t.len() == 0 {
        Seq::empty()
    } else if size < 1 || t.len() <= size {
        keep_nonempty(trim(t))
    } else {
        keep_nonempty(trim(t.take(size))) + sliced_chunks(t.skip(size), size)
    }
}

/// The slice size for a budget: the budget itself, and one character where
/// the budget is zero.
pub open spec fn slice_size(limit: int) -> int {
    if limit < 1 {
        1
    } else {
        limit
    }
}

/// The chunks that one raw piece gives: the trimmed piece where it fits the
/// budget, its slices where it does not.
pub open spec fn piece_chunks(piece: Seq<char>, limit: int) -> Seq<Seq<char>> {
    let t = trim(piece);
    if t.len() <= limit {
        keep_nonempty(t)
    } else {
        sliced_chunks(t, slice_size(limit))
    }
}

/// The chunks of the first `count` raw pieces, in order.
pub open spec fn chunks_of_pieces(text: Seq<char>, cuts: Seq<int>, limit: int, count: int) -> Seq<
    Seq<char>,
>
    decreases count,
{
    if count <= 0 {
        Seq::empty()
    } else {
        chunks_of_pieces(text, cuts, limit, count - 1) + piece_chunks(
            text.subrange(piece_start(cuts, count - 1), cuts[count - 1]),
            limit,
        )
    }
}

/// The chunk texts of `text` under the budget `limit`.
pub open spec fn split_spec(text: Seq<char>, limit: int) -> Seq<Seq<char>> {
    if text.len() <= limit {
        seq![trim(text)]
    } else {
        let cuts = cut_points(text, limit);
        chunks_of_pieces(text, cuts, limit, cuts.len() as int)
    }
}

/// Every cut lies behind the one before it, and the first behind position 0:
/// no raw piece is empty.
pub open spec fn cuts_increase(cuts: Seq<int>) -> bool {
    forall|k: int| 0 <= k < cuts.len() ==> #[trigger] piece_nonempty(cuts, k)
}

/// The raw piece that ends at `cuts[k]` holds at least one character.
pub open spec fn piece_nonempty(cuts: Seq<int>, k: int) -> bool {
    piece_start(cuts, k) < cuts[k]
}

/// What holds of the scan state in front of position `i`.
pub open spec fn scan_wf(s: Scan, limit: int, i: int) -> bool {
    &&& 0 <= s.chunk_start <= s.sentence_start <= i
    &&& s.chunk_start == piece_start(s.cuts, s.cuts.len() as int)
    &&& cuts_increase(s.cuts)
    &&& s.pending matches Some(b) ==> s.sentence_start <= b < i && i - s.chunk_start
        <= soft_threshold(limit)
}

/// The scan keeps its state well formed.
pub proof fn lemma_scan_wf(text: Seq<char>, limit: int, i: int)
    requires
        0 <= i <= text.len(),
    ensures
        scan_wf(scan(text, limit, i), limit, i),
    decreases i,
{
    if i > 0 {
        lemma_scan_wf(text, limit, i - 1);
        let s = scan(text, limit, i - 1);
        let r = scan_step(text, limit, s, i - 1);
        assert(r == scan(text, limit, i));
        assert(cuts_increase(r.cuts)) by {
            assert forall|k: int| 0 <= k < r.cuts.len() implies #[trigger] piece_nonempty(
                r.cuts,
                k,
            ) by {
                if k < s.cuts.len() {
                    assert(piece_nonempty(s.cuts, k));
                }
            }
        }
    }
}

/// The positions held by a vector of indices.
pub open spec fn positions(v: Seq<usize>) -> Seq<int> {
    v.map_values(|p: usize| p as int)
}

/// Tests a character for a sentence terminator.
pub fn is_sentence_end(c: char) -> (r: bool)
    ensures
        r == is_sentence_end_spec(c),
{
    c == '.' || c == '!' || c == '?' || c == '\u{3002}' || c == '\u{FF01}' || c == '\u{FF1F}'
}

/// Tests a character for a soft break.
pub fn is_soft_break(c: char) -> (r: bool)
    ensures
        r == is_soft_break_spec(c),
{
    c == ',' || c == '\u{3001}' || c == '\u{FF0C}' || c == ';' || c == '\u{FF1B}' || c == ':' || c
        == '\u{FF1A}'
}

/// Scans `chars` and returns the end positions of its raw pieces.
fn scan_cuts(chars: &Vec<char>, limit: usize) -> (cuts: Vec<usize>)
    ensures
        positions(cuts@) == cut_points(chars@, limit as int),
        cuts_increase(positions(cuts@)),
        forall|k: int| 0 <= k < cuts.len() ==> #[trigger] cuts[k] <= chars.len(),
{
    let n = chars.len();
    let threshold: usize = if limit >= SOFT_BREAK_MARGIN {
        limit - SOFT_BREAK_MARGIN
    } else {
        0
    };
    let mut cuts: Vec<usize> = Vec::new();
    let mut chunk_start: usize = 0;
    let mut sentence_start: usize = 0;
    let mut pending: Option<usize> = None;
    let mut i: usize = 0;
    assert(positions(cuts@) =~= Seq::<int>::empty());
    while i < n
        invariant
            i <= n == chars.len(),
            threshold == soft_threshold(limit as int),
            scan(chars@, limit as int, i as int) == (Scan {
                cuts: positions(cuts@),
                chunk_start: chunk_start as int,
                sentence_start: sentence_start as int,
                pending: match pending {
                    Some(b) => Some(b as int),
                    None => None,
                },
            }),
            forall|k: int| 0 <= k < cuts.len() ==> #[trigger] cuts[k] <= i,
        decreases n - i,
    {
        proof {
            lemma_scan_wf(chars@, limit as int, i as int);
        }
        let ghost before = scan(chars@, limit as int, i as int);
        let ghost old_cuts = cuts@;
        let c = chars[i];
        let run: usize = i + 1 - chunk_start;
        if is_soft_break(c) && run <= limit {
            pending = Some(i);
        }
        let ends_sentence = is_sentence_end(c);
        let soft_cut: Option<usize> = if run > threshold && !ends_sentence {
            pending
        } else {
            None
        };
        match soft_cut {
            Some(b) => {
                let cut: usize = b + 1;
                cuts.push(cut);
                chunk_start = cut;
                sentence_start = cut;
                pending = None;
            },
            None => {
                if ends_sentence || i == n - 1 {
                    if run > limit && sentence_start > chunk_start {
                        cuts.push(sentence_start);
                        chunk_start = sentence_start;
                    }
                    sentence_start = i + 1;
                    pending = None;
                }
            },
        }
        proof {
            let after = scan_step(chars@, limit as int, before, i as int);
            assert(after == scan(chars@, limit as int, i + 1));
            if cuts@.len() > old_cuts.len() {
                assert(cuts@ == old_cuts.push(cuts@.last()));
                assert(positions(cuts@) =~= positions(old_cuts).push(cuts@.last() as int));
            }
            assert(after.cuts == positions(cuts@));
        }
        i += 1;
    }
    proof {
        lemma_scan_wf(chars@, limit as int, n as int);
    }
    let ghost old_cuts = cuts@;
    if sentence_start < n && n - chunk_start > limit && sentence_start > chunk_start {
        cuts.push(sentence_start);
        chunk_start = sentence_start;
        assert(positions(cuts@) =~= positions(old_cuts).push(sentence_start as int));
    }
    let ghost mid_cuts = cuts@;
    if chunk_start < n {
        cuts.push(n);
        assert(positions(cuts@) =~= positions(mid_cuts).push(n as int));
    }
    proof {
        let pc = positions(cuts@);
        let s = scan(chars@, limit as int, n as int);
        assert(pc == cut_points(chars@, limit as int));
        assert forall|k: int| 0 <= k < pc.len() implies #[trigger] piece_nonempty(pc, k) by {
            if k < s.cuts.len() {
                assert(piece_nonempty(s.cuts, k));
            }
        }
    }
    cuts
}

/// The texts that a list of ranges cuts out of `text`.
pub open spec fn range_texts(text: Seq<char>, ranges: Seq<(usize, usize)>) -> Seq<Seq<char>> {
    Seq::new(ranges.len(), |k: int| text.subrange(ranges[k].0 as int, ranges[k].1 as int))
}

/// Every range lies within a text of `len` characters.
pub open spec fn ranges_within(ranges: Seq<(usize, usize)>, len: int) -> bool {
    forall|k: int| 0 <= k < ranges.len() ==> (#[trigger] ranges[k]).0 <= ranges[k].1 <= len
}

/// Appends the range of `chars[lo..hi]`, trimmed, unless nothing is left.
fn push_trimmed(chars: &Vec<char>, lo: usize, hi: usize, out: &mut Vec<(usize, usize)>)
    requires
        lo <= hi <= chars.len(),
        ranges_within(old(out)@, chars.len() as int),
    ensures
        ranges_within(final(out)@, chars.len() as int),
        range_texts(chars@, final(out)@) == range_texts(chars@, old(out)@) + keep_nonempty(
            trim(chars@.subrange(lo as int, hi as int)),
        ),
{
    let (a, b) = trim_bounds(chars, lo, hi);
    if a < b {
        out.push((a, b));
    }
    assert(range_texts(chars@, out@) =~= range_texts(chars@, old(out)@) + keep_nonempty(
        trim(chars@.subrange(lo as int, hi as int)),
    ));
}

/// Appends the chunks of the raw piece `chars[lo..hi]`.
fn push_piece(chars: &Vec<char>, lo: usize, hi: usize, limit: usize, out: &mut Vec<(usize, usize)>)
    requires
        lo <= hi <= chars.len(),
        ranges_within(old(out)@, chars.len() as int),
    ensures
        ranges_within(final(out)@, chars.len() as int),
        range_texts(chars@, final(out)@) == range_texts(chars@, old(out)@) + piece_chunks(
            chars@.subrange(lo as int, hi as int),
            limit as int,
        ),
{
    let (a, b) = trim_bounds(chars, lo, hi);
    let ghost base = range_texts(chars@, out@);
    let ghost t = chars@.subrange(a as int, b as int);
    if b - a <= limit {
        if a < b {
            out.push((a, b));
        }
        assert(range_texts(chars@, out@) =~= base + keep_nonempty(t));
    } else {
        let size: usize = if limit < 1 {
            1
        } else {
            limit
        };
        let mut p: usize = a;
        assert(chars@.subrange(p as int, b as int) == t);
        while p < b
            invariant
                a <= p <= b <= chars.len(),
                size == slice_size(limit as int),
                ranges_within(out@, chars.len() as int),
                range_texts(chars@, out@) + sliced_chunks(
                    chars@.subrange(p as int, b as int),
                    size as int,
                ) == base + sliced_chunks(t, size as int),
            decreases b - p,
        {
            let q: usize = if b - p <= size {
                b
            } else {
                p + size
            };
            let ghost rest = chars@.subrange(p as int, b as int);
            let ghost before = range_texts(chars@, out@);
            proof {
                assert(rest.take(q - p) == chars@.subrange(p as int, q as int));
                assert(rest.skip(q - p) == chars@.subrange(q as int, b as int));
                if q == b {
                    assert(rest.take(q - p) == rest);
                    assert(sliced_chunks(chars@.subrange(q as int, b as int), size as int)
                        == Seq::<Seq<char>>::empty());
                }
                assert(sliced_chunks(rest, size as int) == keep_nonempty(
                    trim(chars@.subrange(p as int, q as int)),
                ) + sliced_chunks(chars@.subrange(q as int, b as int), size as int));
            }
            push_trimmed(chars, p, q, out);
            proof {
                let piece = keep_nonempty(trim(chars@.subrange(p as int, q as int)));
                let tail = sliced_chunks(chars@.subrange(q as int, b as int), size as int);
                assert((before + piece) + tail == before + (piece + tail));
            }
            p = q;
        }
        assert(sliced_chunks(chars@.subrange(b as int, b as int), size as int) == Seq::<
            Seq<char>,
        >::empty());
    }
}

/// The ranges of `chars` that are its chunks under the budget `limit`.
pub fn chunk_ranges(chars: &Vec<char>, limit: usize) -> (out: Vec<(usize, usize)>)
    ensures
        ranges_within(out@, chars.len() as int),
        range_texts(chars@, out@) == split_spec(chars@, limit as int),
{
    let n = chars.len();
    let mut out: Vec<(usize, usize)> = Vec::new();
    if n <= limit {
        let (a, b) = trim_bounds(chars, 0, n);
        out.push((a, b));
        assert(chars@.subrange(0, n as int) == chars@);
        assert(range_texts(chars@, out@) =~= seq![trim(chars@)]);
        return out;
    }
    let cuts = scan_cuts(chars, limit);
    let ghost pc = positions(cuts@);
    let mut j: usize = 0;
    let mut start: usize = 0;
    assert(range_texts(chars@, out@) =~= Seq::<Seq<char>>::empty());
    while j < cuts.len()
        invariant
            j <= cuts.len(),
            pc == positions(cuts@),
            cuts_increase(pc),
            forall|k: int| 0 <= k < cuts.len() ==> #[trigger] cuts[k] <= chars.len(),
            start == piece_start(pc, j as int),
            ranges_within(out@, chars.len() as int),
            range_texts(chars@, out@) == chunks_of_pieces(chars@, pc, limit as int, j as int),
        decreases cuts.len() - j,
    {
        let end = cuts[j];
        let ghost done = range_texts(chars@, out@);
        proof {
            assert(pc[j as int] == end);
            lemma_cuts_positive(pc, j as int);
        }
        push_piece(chars, start, end, limit, &mut out);
        assert(chunks_of_pieces(chars@, pc, limit as int, j + 1) == done + piece_chunks(
            chars@.subrange(start as int, end as int),
            limit as int,
        ));
        start = end;
        j += 1;
    }
    out
}

/// One chunk of a request's text: a synthesis unit.
#[derive(Debug, PartialEq, Eq)]
pub struct TextChunk {
    /// Zero-based position of the chunk within its request.
    pub ordinal: u32,
    /// The chunk's text, trimmed.
    pub text: String,
    /// Number of characters of `text`.
    pub char_count: usize,
}

impl Clone for TextChunk {
    fn clone(&self) -> (r: Self)
        ensures
            r == *self,
    {
        TextChunk { ordinal: self.ordinal, text: self.text.clone(), char_count: self.char_count }
    }
}

/// What a chunk holds, as plain values.
pub struct ChunkView {
    pub ordinal: nat,
    pub text: Seq<char>,
    pub char_count: nat,
}

impl View for TextChunk {
    type V = ChunkView;

    open spec fn view(&self) -> ChunkView {
        ChunkView {
            ordinal: self.ordinal as nat,
            text: self.text@,
            char_count: self.char_count as nat,
        }
    }
}

/// The views of a list of chunks, in order.
pub open spec fn chunk_views(chunks: Seq<TextChunk>) -> Seq<ChunkView> {
    Seq::new(chunks.len(), |k: int| chunks[k]@)
}

/// The chunks with these texts: numbered from 0 without a gap, each with
/// the count of its characters.
pub open spec fn numbered(texts: Seq<Seq<char>>) -> Seq<ChunkView> {
    Seq::new(
        texts.len(),
        |k: int| ChunkView { ordinal: k as nat, text: texts[k], char_count: texts[k].len() },
    )
}

/// The texts of a list of chunks, in order.
pub open spec fn chunk_texts(chunks: Seq<TextChunk>) -> Seq<Seq<char>> {
    Seq::new(chunks.len(), |k: int| chunks[k].text@)
}

/// Ordinals run from 0 without a gap, and each count is that of its text.
pub open spec fn densely_numbered(chunks: Seq<TextChunk>) -> bool {
    forall|k: int|
        0 <= k < chunks.len() ==> (#[trigger] chunks[k]).ordinal == k && chunks[k].char_count
            == chunks[k].text@.len()
}

/// A split never yields more chunks than the text has characters, and never
/// more than one for a text that fits the budget.
pub proof fn lemma_chunk_count(text: Seq<char>, limit: int)
    requires
        limit >= 0,
    ensures
        split_spec(text, limit).len() <= text.len() || split_spec(text, limit).len() == 1,
{
    if text.len() > limit {
        let cuts = cut_points(text, limit);
        lemma_cut_points(text, limit);
        lemma_pieces_count(text, cuts, limit, cuts.len() as int);
    }
}

/// The scan cuts a non-empty text into non-empty raw pieces that lie end to
/// end and reach the end of the text.
pub proof fn lemma_cut_points(text: Seq<char>, limit: int)
    requires
        text.len() > 0,
    ensures
        cuts_increase(cut_points(text, limit)),
        cut_points(text, limit).len() > 0,
        cut_points(text, limit).last() == text.len(),
{
    let n = text.len() as int;
    let s = scan(text, limit, n);
    lemma_scan_wf(text, limit, n);
    let cuts = cut_points(text, limit);
    assert forall|k: int| 0 <= k < cuts.len() implies #[trigger] piece_nonempty(cuts, k) by {
        if k < s.cuts.len() {
            assert(piece_nonempty(s.cuts, k));
        }
    }
}

/// Slicing yields at most as many chunks as there are characters.
proof fn lemma_sliced_count(t: Seq<char>, size: int)
    requires
        size >= 1,
    ensures
        sliced_chunks(t, size).len() <= t.len(),
    decreases t.len(),
{
    if t.len() > size {
        lemma_sliced_count(t.skip(size), size);
    }
}

/// The first `count` raw pieces yield at most as many chunks as they have
/// characters.
proof fn lemma_pieces_count(text: Seq<char>, cuts: Seq<int>, limit: int, count: int)
    requires
        cuts_increase(cuts),
        0 <= count <= cuts.len(),
        cuts.len() > 0 ==> cuts.last() <= text.len(),
    ensures
        chunks_of_pieces(text, cuts, limit, count).len() <= piece_start(cuts, count),
    decreases count,
{
    if count > 0 {
        lemma_pieces_count(text, cuts, limit, count - 1);
        lemma_cuts_positive(cuts, count - 1);
        lemma_cuts_ordered(cuts, count - 1, cuts.len() - 1);
        let piece = text.subrange(piece_start(cuts, count - 1), cuts[count - 1]);
        crate::text::lemma_trim(piece);
        lemma_sliced_count(trim(piece), slice_size(limit));
    }
}

/// Every raw piece starts at or behind position 0 and is not empty.
pub proof fn lemma_cuts_positive(cuts: Seq<int>, j: int)
    requires
        cuts_increase(cuts),
        0 <= j < cuts.len(),
    ensures
        0 <= piece_start(cuts, j) < cuts[j],
    decreases j,
{
    assert(piece_nonempty(cuts, j));
    if j > 0 {
        lemma_cuts_positive(cuts, j - 1);
    }
}

/// Cuts that increase step by step are ordered throughout.
pub proof fn lemma_cuts_ordered(cuts: Seq<int>, j: int, k: int)
    requires
        cuts_increase(cuts),
        0 <= j <= k < cuts.len(),
    ensures
        cuts[j] <= cuts[k],
    decreases k - j,
{
    if j < k {
        lemma_cuts_ordered(cuts, j, k - 1);
        assert(piece_nonempty(cuts, k));
    }
}

/// Splits `text` into chunks of at most `limit` characters, numbered from 0.
///
/// A text of at most `limit` characters is one chunk, the text trimmed. A
/// longer one is cut at soft breaks and between sentences, and sliced by
/// count where neither helps; its chunks are trimmed and never empty.
pub fn split(text: &str, limit: usize) -> (chunks: Vec<TextChunk>)
    requires
        text@.len() <= u32::MAX,
    ensures
        chunk_views(chunks@) == numbered(split_spec(text@, limit as int)),
        chunk_texts(chunks@) == split_spec(text@, limit as int),
        densely_numbered(chunks@),
        text@.len() <= limit ==> chunks.len() == 1 && chunks[0].text@ == trim(text@),
        text@.len() > limit ==> forall|k: int|
            0 <= k < chunks.len() ==> (#[trigger] chunks[k]).char_count > 0,
        limit >= 1 ==> forall|k: int|
            0 <= k < chunks.len() ==> (#[trigger] chunks[k]).char_count <= limit,
        forall|k: int|
            0 <= k < chunks.len() && (#[trigger] chunks[k]).char_count > 0
                ==> !is_whitespace_spec(chunks[k].text@[0]) && !is_whitespace_spec(
                chunks[k].text@.last(),
            ),
        whitespace_separated(text@, chunk_texts(chunks@)),
{
    let chars = crate::text::to_chars(text);
    let ranges = chunk_ranges(&chars, limit);
    proof {
        lemma_chunk_count(chars@, limit as int);
        law_chunks_are_trimmed(chars@, limit as int);
        law_split_loses_only_whitespace(chars@, limit as int);
        if limit >= 1 {
            law_chunks_fit_budget(chars@, limit as int);
        }
    }
    let mut chunks: Vec<TextChunk> = Vec::new();
    let mut k: usize = 0;
    while k < ranges.len()
        invariant
            k <= ranges.len() <= u32::MAX,
            chunks.len() == k,
            ranges_within(ranges@, chars.len() as int),
            densely_numbered(chunks@),
            chunk_texts(chunks@) == range_texts(chars@, ranges@).take(k as int),
        decreases ranges.len() - k,
    {
        let (lo, hi) = ranges[k];
        let chunk = TextChunk {
            ordinal: k as u32,
            text: crate::text::substring(&chars, lo, hi),
            char_count: hi - lo,
        };
        chunks.push(chunk);
        k += 1;
        assert(chunk_texts(chunks@) =~= range_texts(chars@, ranges@).take(k as int));
    }
    assert(range_texts(chars@, ranges@).take(k as int) == range_texts(chars@, ranges@));
    assert forall|k: int| 0 <= k < chunks.len() implies (#[trigger] chunks[k]).text@ == split_spec(
        text@,
        limit as int,
    )[k] by {
        assert(chunk_texts(chunks@)[k] == chunks[k].text@);
    }
    assert(chunk_views(chunks@) =~= numbered(split_spec(text@, limit as int)));
    chunks
}

/// Splits `text` into chunks that fit the sample-cloning backend's budget of
/// `XTTS_CHAR_LIMIT` characters: the texts of `split`, without the numbering.
pub fn split_text_for_xtts(text: &str) -> (chunks: Vec<String>)
    ensures
        texts_of(chunks@) == split_spec(text@, XTTS_CHAR_LIMIT as int),
        text@.len() <= XTTS_CHAR_LIMIT ==> chunks.len() == 1 && chunks[0]@ == trim(text@),
        forall|k: int| 0 <= k < chunks.len() ==> (#[trigger] chunks[k])@.len() <= XTTS_CHAR_LIMIT,
        whitespace_separated(text@, texts_of(chunks@)),
{
    let chars = crate::text::to_chars(text);
    let ranges = chunk_ranges(&chars, XTTS_CHAR_LIMIT);
    proof {
        law_split_loses_only_whitespace(chars@, XTTS_CHAR_LIMIT as int);
        law_chunks_fit_budget(chars@, XTTS_CHAR_LIMIT as int);
    }
    let mut chunks: Vec<String> = Vec::new();
    let mut k: usize = 0;
    while k < ranges.len()
        invariant
            k <= ranges.len(),
            chunks.len() == k,
            ranges_within(ranges@, chars.len() as int),
            texts_of(chunks@) == range_texts(chars@, ranges@).take(k as int),
        decreases ranges.len() - k,
    {
        let (lo, hi) = ranges[k];
        chunks.push(crate::text::substring(&chars, lo, hi));
        k += 1;
        assert(texts_of(chunks@) =~= range_texts(chars@, ranges@).take(k as int));
    }
    assert(range_texts(chars@, ranges@).take(k as int) == range_texts(chars@, ranges@));
    assert forall|k: int| 0 <= k < chunks.len() implies (#[trigger] chunks[k])@ == split_spec(
        text@,
        XTTS_CHAR_LIMIT as int,
    )[k] by {
        assert(texts_of(chunks@)[k] == chunks[k]@);
    }
    chunks
}

} // verus!
