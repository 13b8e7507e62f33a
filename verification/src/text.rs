//! Character-level text utilities: Unicode whitespace, trimming, and
//! conversions between strings and character vectors.
//!
//! Lengths and positions in this crate count Unicode scalar values, never
//! bytes, so the working representation of a text is a `Vec<char>`.

use vstd::prelude::*;

verus! {

/// Whether `c` carries the Unicode `White_Space` property.
pub open spec fn is_whitespace_spec(c: char) -> bool {
    let n = c as u32;
    ||| 0x09 <= n <= 0x0D
    ||| n == 0x20
    ||| n == 0x85
    ||| n == 0xA0
    ||| n == 0x1680
    ||| 0x2000 <= n <= 0x200A
    ||| n == 0x2028
    ||| n == 0x2029
    ||| n == 0x202F
    ||| n == 0x205F
    ||| n == 0x3000
}

/// Whether every character of `s` is whitespace. True of the empty text.
pub open spec fn all_whitespace(s: Seq<char>) -> bool {
    forall|i: int| 0 <= i < s.len() ==> is_whitespace_spec(#[trigger] s[i])
}

/// Number of whitespace characters at the start of `s`.
pub open spec fn leading_whitespace(s: Seq<char>) -> nat
    decreases s.len(),
{
    if s.len() > 0 && is_whitespace_spec(s[0]) {
        1 + leading_whitespace(s.drop_first())
    } else {
        0
    }
}

/// Number of whitespace characters at the end of `s`.
pub open spec fn trailing_whitespace(s: Seq<char>) -> nat
    decreases s.len(),
{
    if s.len() > 0 && is_whitespace_spec(s.last()) {
        1 + trailing_whitespace(s.drop_last())
    } else {
        0
    }
}

/// `s` without its leading whitespace.
pub open spec fn trim_start(s: Seq<char>) -> Seq<char> {
    s.skip(leading_whitespace(s) as int)
}

/// `s` without its trailing whitespace.
pub open spec fn trim_end(s: Seq<char>) -> Seq<char> {
    s.take(s.len() - trailing_whitespace(s))
}

/// `s` without its leading and trailing whitespace.
pub open spec fn trim(s: Seq<char>) -> Seq<char> {
    trim_end(trim_start(s))
}

/// The leading whitespace of `s` is a prefix of `s`, consists of whitespace
/// only, and is followed by a non-whitespace character or the end of `s`.
pub proof fn lemma_leading_whitespace(s: Seq<char>)
    ensures
        leading_whitespace(s) <= s.len(),
        all_whitespace(s.take(leading_whitespace(s) as int)),
        leading_whitespace(s) < s.len() ==> !is_whitespace_spec(s[leading_whitespace(s) as int]),
        leading_whitespace(s) == s.len() <==> all_whitespace(s),
    decreases s.len(),
{
    if s.len() > 0 && is_whitespace_spec(s[0]) {
        let rest = s.drop_first();
        lemma_leading_whitespace(rest);
        let k = leading_whitespace(rest) as int;
        assert forall|i: int| 0 <= i < k + 1 implies is_whitespace_spec(
            #[trigger] s.take(k + 1)[i],
        ) by {
            if i > 0 {
                assert(s.take(k + 1)[i] == rest.take(k)[i - 1]);
            }
        }
        if k < rest.len() {
            assert(s[k + 1] == rest[k]);
        }
        if all_whitespace(s) {
            assert forall|i: int| 0 <= i < rest.len() implies is_whitespace_spec(
                #[trigger] rest[i],
            ) by {
                assert(rest[i] == s[i + 1]);
            }
        }
        if all_whitespace(rest) {
            assert forall|i: int| 0 <= i < s.len() implies is_whitespace_spec(#[trigger] s[i]) by {
                if i > 0 {
                    assert(s[i] == rest[i - 1]);
                }
            }
        }
    } else {
        if s.len() > 0 {
            assert(!is_whitespace_spec(s[0]));
        }
    }
}

/// The trailing whitespace of `s` is a suffix of `s`, consists of whitespace
/// only, and is preceded by a non-whitespace character or the start of `s`.
pub proof fn lemma_trailing_whitespace(s: Seq<char>)
    ensures
        trailing_whitespace(s) <= s.len(),
        all_whitespace(s.skip(s.len() - trailing_whitespace(s))),
        trailing_whitespace(s) < s.len() ==> !is_whitespace_spec(
            s[s.len() - trailing_whitespace(s) - 1],
        ),
        trailing_whitespace(s) == s.len() <==> all_whitespace(s),
    decreases s.len(),
{
    if s.len() > 0 && is_whitespace_spec(s.last()) {
        let rest = s.drop_last();
        lemma_trailing_whitespace(rest);
        let k = trailing_whitespace(rest) as int;
        let from = s.len() - (k + 1);
        assert forall|i: int| 0 <= i < k + 1 implies is_whitespace_spec(
            #[trigger] s.skip(from)[i],
        ) by {
            if i < k {
                assert(s.skip(from)[i] == rest.skip(rest.len() - k)[i]);
            }
        }
        if k < rest.len() {
            assert(s[from - 1] == rest[rest.len() - k - 1]);
        }
        if all_whitespace(s) {
            assert forall|i: int| 0 <= i < rest.len() implies is_whitespace_spec(
                #[trigger] rest[i],
            ) by {
                assert(rest[i] == s[i]);
            }
        }
        if all_whitespace(rest) {
            assert forall|i: int| 0 <= i < s.len() implies is_whitespace_spec(#[trigger] s[i]) by {
                if i < rest.len() {
                    assert(s[i] == rest[i]);
                }
            }
        }
    } else {
        if s.len() > 0 {
            assert(!is_whitespace_spec(s[s.len() - 1]));
        }
    }
}

/// What trimming does: `trim(s)` is the part of `s` between its leading and
/// its trailing whitespace; it neither starts nor ends with whitespace, and
/// it is empty exactly when `s` is all whitespace.
pub proof fn lemma_trim(s: Seq<char>)
    ensures
        trim(s).len() <= s.len(),
        s == s.take(leading_whitespace(s) as int) + trim(s) + s.skip(
            (leading_whitespace(s) + trim(s).len()) as int,
        ),
        all_whitespace(s.take(leading_whitespace(s) as int)),
        all_whitespace(s.skip((leading_whitespace(s) + trim(s).len()) as int)),
        trim(s).len() > 0 ==> !is_whitespace_spec(trim(s)[0]) && !is_whitespace_spec(
            trim(s).last(),
        ),
        trim(s).len() == 0 <==> all_whitespace(s),
        leading_whitespace(s) + trim(s).len() <= s.len(),
{
    lemma_leading_whitespace(s);
    let a = leading_whitespace(s) as int;
    let mid = s.skip(a);
    lemma_trailing_whitespace(mid);
    let t = trim(s);
    assert(t == mid.take(mid.len() - trailing_whitespace(mid)));
    assert(s.skip(a + t.len()) =~= mid.skip(mid.len() - trailing_whitespace(mid)));
    assert(s =~= s.take(a) + t + s.skip(a + t.len()));
    if t.len() > 0 {
        assert(t[0] == s[a]);
        assert(t.last() == mid[mid.len() - trailing_whitespace(mid) - 1]);
    }
    if all_whitespace(s) {
        assert(mid.len() == 0);
    }
    if t.len() == 0 {
        assert(all_whitespace(mid));
        assert forall|i: int| 0 <= i < s.len() implies is_whitespace_spec(#[trigger] s[i]) by {
            if i < a {
                assert(s[i] == s.take(a)[i]);
            } else {
                assert(s[i] == mid[i - a]);
            }
        }
    }
}

/// Trimming a trimmed text changes nothing.
pub proof fn lemma_trim_idempotent(s: Seq<char>)
    ensures
        trim(trim(s)) == trim(s),
{
    lemma_trim(s);
    let t = trim(s);
    lemma_trim(t);
    if t.len() > 0 {
        lemma_leading_whitespace(t);
        lemma_trailing_whitespace(t);
        assert(leading_whitespace(t) == 0);
        assert(trim_start(t) == t);
        assert(trailing_whitespace(t) == 0);
    }
}

/// The character sequences of a list of strings, in order.
pub open spec fn texts_of(strings: Seq<String>) -> Seq<Seq<char>> {
    Seq::new(strings.len(), |k: int| strings[k]@)
}

/// Position of the last `c` in `s`, or -1 where there is none.
pub open spec fn last_index(s: Seq<char>, c: char) -> int
    decreases s.len(),
{
    if s.len() == 0 {
        -1
    } else if s.last() == c {
        s.len() - 1
    } else {
        last_index(s.drop_last(), c)
    }
}

/// Position of the first `c` in `s`, or the length of `s` where there is none.
pub open spec fn first_index(s: Seq<char>, c: char) -> int
    decreases s.len(),
{
    if s.len() == 0 || s[0] == c {
        0
    } else {
        1 + first_index(s.drop_first(), c)
    }
}

/// `first_index` is the first position that holds `c`.
pub proof fn lemma_first_index(s: Seq<char>, c: char)
    ensures
        0 <= first_index(s, c) <= s.len(),
        first_index(s, c) < s.len() ==> s[first_index(s, c)] == c,
        forall|j: int| 0 <= j < first_index(s, c) ==> #[trigger] s[j] != c,
    decreases s.len(),
{
    if s.len() == 0 || s[0] == c {
    } else {
        let rest = s.drop_first();
        lemma_first_index(rest, c);
        assert forall|j: int| 0 <= j < first_index(s, c) implies #[trigger] s[j] != c by {
            if j > 0 {
                assert(s[j] == rest[j - 1]);
            }
        }
    }
}

/// The view of an optional string.
pub open spec fn opt_text(s: Option<String>) -> Option<Seq<char>> {
    match s {
        Some(t) => Some(t@),
        None => None,
    }
}

/// The view of an optional string slice.
pub open spec fn opt_str(s: Option<&str>) -> Option<Seq<char>> {
    match s {
        Some(t) => Some(t@),
        None => None,
    }
}

/// Tests a character for the Unicode `White_Space` property.
pub fn is_whitespace(c: char) -> (r: bool)
    ensures
        r == is_whitespace_spec(c),
{
    let n: u32 = c as u32;
    (0x09 <= n && n <= 0x0D) || n == 0x20 || n == 0x85 || n == 0xA0 || n == 0x1680 || (0x2000 <= n
        && n <= 0x200A) || n == 0x2028 || n == 0x2029 || n == 0x202F || n == 0x205F || n == 0x3000
}

/// `String::push` of the standard library appends one character to the
/// string and leaves the characters before it unchanged.
pub assume_specification[ String::push ](s: &mut String, ch: char)
    ensures
        final(s)@ == old(s)@.push(ch),
;

/// The characters of `s`, in order.
pub fn to_chars(s: &str) -> (v: Vec<char>)
    ensures
        v@ == s@,
{
    let mut v: Vec<char> = Vec::new();
    for c in it: s.chars()
        invariant
            it.seq() == s@,
            v@ == s@.subrange(0, it.index() as int),
    {
        v.push(c);
    }
    assert(v@ == s@);
    v
}

/// The string made of `chars[lo..hi]`.
pub fn substring(chars: &Vec<char>, lo: usize, hi: usize) -> (s: String)
    requires
        lo <= hi <= chars.len(),
    ensures
        s@ == chars@.subrange(lo as int, hi as int),
{
    let mut s = String::new();
    let mut i: usize = lo;
    while i < hi
        invariant
            lo <= i <= hi <= chars.len(),
            s@ == chars@.subrange(lo as int, i as int),
        decreases hi - i,
    {
        s.push(chars[i]);
        i += 1;
    }
    s
}

/// The string made of all of `chars`.
pub fn string_of(chars: &Vec<char>) -> (s: String)
    ensures
        s@ == chars@,
{
    let s = substring(chars, 0, chars.len());
    assert(chars@.subrange(0, chars.len() as int) == chars@);
    s
}

/// Trims `chars[lo..hi]`: returns the bounds of the range that is left
/// when the whitespace at both ends is removed.
pub fn trim_bounds(chars: &Vec<char>, lo: usize, hi: usize) -> (r: (usize, usize))
    requires
        lo <= hi <= chars.len(),
    ensures
        lo <= r.0 <= r.1 <= hi,
        r.0 == lo + leading_whitespace(chars@.subrange(lo as int, hi as int)),
        chars@.subrange(r.0 as int, r.1 as int) == trim(chars@.subrange(lo as int, hi as int)),
{
    let ghost whole = chars@.subrange(lo as int, hi as int);
    let mut a: usize = lo;
    while a < hi && is_whitespace(chars[a])
        invariant
            lo <= a <= hi <= chars.len(),
            leading_whitespace(whole) == (a - lo) + leading_whitespace(
                chars@.subrange(a as int, hi as int),
            ),
            whole == chars@.subrange(lo as int, hi as int),
        decreases hi - a,
    {
        assert(chars@.subrange(a as int, hi as int).drop_first() == chars@.subrange(
            a + 1,
            hi as int,
        ));
        a += 1;
    }
    let ghost mid = chars@.subrange(a as int, hi as int);
    assert(leading_whitespace(mid) == 0);
    assert(mid == trim_start(whole));
    let mut b: usize = hi;
    while a < b && is_whitespace(chars[b - 1])
        invariant
            a <= b <= hi <= chars.len(),
            trailing_whitespace(mid) == (hi - b) + trailing_whitespace(
                chars@.subrange(a as int, b as int),
            ),
            mid == chars@.subrange(a as int, hi as int),
        decreases b - a,
    {
        assert(chars@.subrange(a as int, b as int).drop_last() == chars@.subrange(
            a as int,
            b - 1,
        ));
        b -= 1;
    }
    assert(trailing_whitespace(chars@.subrange(a as int, b as int)) == 0);
    assert(chars@.subrange(a as int, b as int) == mid.take(mid.len() - trailing_whitespace(mid)));
    (a, b)
}

/// Whether two strings hold the same characters.
pub fn same_text(a: &str, b: &str) -> (r: bool)
    ensures
        r == (a@ == b@),
{
    let x = to_chars(a);
    let y = to_chars(b);
    same_chars(&x, &y)
}

/// Whether two character vectors hold the same characters.
pub fn same_chars(a: &Vec<char>, b: &Vec<char>) -> (r: bool)
    ensures
        r == (a@ == b@),
{
    if a.len() != b.len() {
        return false;
    }
    let mut i: usize = 0;
    while i < a.len()
        invariant
            i <= a.len(),
            a.len() == b.len(),
            a@.take(i as int) == b@.take(i as int),
        decreases a.len() - i,
    {
        if a[i] != b[i] {
            return false;
        }
        assert(a@.take(i + 1) == a@.take(i as int).push(a@[i as int]));
        assert(b@.take(i + 1) == b@.take(i as int).push(b@[i as int]));
        i += 1;
    }
    assert(a@ == a@.take(a.len() as int));
    assert(b@ == b@.take(b.len() as int));
    true
}

/// The position behind the last `c` in `chars`, or 0 where there is none.
pub fn behind_last(chars: &Vec<char>, c: char) -> (r: usize)
    ensures
        r == last_index(chars@, c) + 1,
        r <= chars.len(),
        r > 0 ==> chars@[r - 1] == c,
{
    let n = chars.len();
    let mut end: usize = n;
    assert(chars@.take(n as int) == chars@);
    while end > 0 && chars[end - 1] != c
        invariant
            end <= n == chars.len(),
            last_index(chars@, c) == last_index(chars@.take(end as int), c),
        decreases end,
    {
        assert(chars@.take(end as int).drop_last() == chars@.take(end - 1));
        end -= 1;
    }
    end
}

/// Position of the first `c` in `chars[from..]`, or the length of `chars`.
pub fn find_from(chars: &Vec<char>, from: usize, c: char) -> (r: usize)
    requires
        from <= chars.len(),
    ensures
        r == from + first_index(chars@.skip(from as int), c),
        from <= r <= chars.len(),
{
    let mut i: usize = from;
    while i < chars.len() && chars[i] != c
        invariant
            from <= i <= chars.len(),
            first_index(chars@.skip(from as int), c) == (i - from) + first_index(
                chars@.skip(i as int),
                c,
            ),
        decreases chars.len() - i,
    {
        assert(chars@.skip(i as int).drop_first() == chars@.skip(i + 1));
        i += 1;
    }
    i
}

} // verus!
