//! Base64 as backends use it to wrap audio in a text envelope: the standard
//! alphabet, with padding, and nothing else.

use crate::text::to_chars;
use vstd::prelude::*;

verus! {

/// The symbol for a value below 64 in the standard alphabet.
pub open spec fn symbol(v: u8) -> char {
    if v < 26 {
        (65 + v) as char
    } else if v < 52 {
        (97 + (v - 26)) as char
    } else if v < 62 {
        (48 + (v - 52)) as char
    } else if v == 62 {
        '+'
    } else {
        '/'
    }
}

/// The value of a symbol of the standard alphabet; none for any other
/// character.
pub open spec fn symbol_value(c: char) -> Option<u8> {
    let n = c as u32;
    if 65 <= n <= 90 {
        Some((n - 65) as u8)
    } else if 97 <= n <= 122 {
        Some((n - 97 + 26) as u8)
    } else if 48 <= n <= 57 {
        Some((n - 48 + 52) as u8)
    } else if c == '+' {
        Some(62u8)
    } else if c == '/' {
        Some(63u8)
    } else {
        None
    }
}

/// The character that fills the last group of an encoding.
pub open spec fn padding() -> char {
    '='
}

/// The four values that three bytes are spread over.
pub open spec fn spread(b0: u8, b1: u8, b2: u8) -> (u8, u8, u8, u8) {
    (b0 >> 2, ((b0 & 3) << 4) | (b1 >> 4), ((b1 & 15) << 2) | (b2 >> 6), b2 & 63)
}

/// The three bytes that four values below 64 gather to.
pub open spec fn gather(v0: u8, v1: u8, v2: u8, v3: u8) -> (u8, u8, u8) {
    ((v0 << 2) | (v1 >> 4), ((v1 & 15) << 4) | (v2 >> 2), ((v2 & 3) << 6) | v3)
}

/// The encoding of a run of bytes: four symbols for each three bytes, and
/// for one or two bytes left over four characters of which the last two or
/// the last one is padding.
pub open spec fn encode_spec(bytes: Seq<u8>) -> Seq<char>
    decreases bytes.len(),
{
    if bytes.len() == 0 {
        Seq::empty()
    } else if bytes.len() == 1 {
        let v = spread(bytes[0], 0, 0);
        seq![symbol(v.0), symbol(v.1), padding(), padding()]
    } else if bytes.len() == 2 {
        let v = spread(bytes[0], bytes[1], 0);
        seq![symbol(v.0), symbol(v.1), symbol(v.2), padding()]
    } else {
        let v = spread(bytes[0], bytes[1], bytes[2]);
        seq![symbol(v.0), symbol(v.1), symbol(v.2), symbol(v.3)] + encode_spec(bytes.skip(3))
    }
}

/// The bytes of a group of four symbols.
pub open spec fn decode_group(c0: char, c1: char, c2: char, c3: char) -> Option<Seq<u8>> {
    match (symbol_value(c0), symbol_value(c1), symbol_value(c2), symbol_value(c3)) {
        (Some(v0), Some(v1), Some(v2), Some(v3)) => {
            let b = gather(v0, v1, v2, v3);
            Some(seq![b.0, b.1, b.2])
        },
        _ => None,
    }
}

/// The bytes of the last group, which may end in padding. The bits that
/// padding leaves unused must be zero.
pub open spec fn decode_last_group(c0: char, c1: char, c2: char, c3: char) -> Option<Seq<u8>> {
    if c3 != padding() {
        decode_group(c0, c1, c2, c3)
    } else if c2 != padding() {
        match (symbol_value(c0), symbol_value(c1), symbol_value(c2)) {
            (Some(v0), Some(v1), Some(v2)) => if v2 & 3 == 0 {
                let b = gather(v0, v1, v2, 0);
                Some(seq![b.0, b.1])
            } else {
                None
            },
            _ => None,
        }
    } else {
        match (symbol_value(c0), symbol_value(c1)) {
            (Some(v0), Some(v1)) => if v1 & 15 == 0 {
                let b = gather(v0, v1, 0, 0);
                Some(seq![b.0])
            } else {
                None
            },
            _ => None,
        }
    }
}

/// The bytes that a text encodes; none for a text that is no encoding.
pub open spec fn decode_spec(text: Seq<char>) -> Option<Seq<u8>>
    decreases text.len(),
{
    if text.len() == 0 {
        Some(Seq::empty())
    } else if text.len() < 4 {
        None
    } else if text.len() == 4 {
        decode_last_group(text[0], text[1], text[2], text[3])
    } else {
        match (decode_group(text[0], text[1], text[2], text[3]), decode_spec(text.skip(4))) {
            (Some(head), Some(tail)) => Some(head + tail),
            _ => None,
        }
    }
}

/// Every value below 64 has a symbol of its own, which is no padding.
pub proof fn lemma_symbol_value(v: u8)
    requires
        v < 64,
    ensures
        symbol_value(symbol(v)) == Some(v),
        symbol(v) != padding(),
{
}

/// A character with a value is the symbol of that value, and the value is
/// below 64.
pub proof fn lemma_value_symbol(c: char)
    requires
        symbol_value(c) is Some,
    ensures
        symbol_value(c)->0 < 64,
        symbol(symbol_value(c)->0) == c,
        c != padding(),
{
}

/// Spreading three bytes gives four values below 64, and gathering those
/// gives the bytes back.
pub proof fn lemma_spread_gather(b0: u8, b1: u8, b2: u8)
    ensures
        spread(b0, b1, b2).0 < 64,
        spread(b0, b1, b2).1 < 64,
        spread(b0, b1, b2).2 < 64,
        spread(b0, b1, b2).3 < 64,
        gather(
            spread(b0, b1, b2).0,
            spread(b0, b1, b2).1,
            spread(b0, b1, b2).2,
            spread(b0, b1, b2).3,
        ) == (b0, b1, b2),
        b2 == 0 ==> spread(b0, b1, b2).3 == 0 && spread(b0, b1, b2).2 & 3 == 0,
        b1 == 0 && b2 == 0 ==> spread(b0, b1, b2).2 == 0 && spread(b0, b1, b2).1 & 15 == 0,
{
    assert(b0 >> 2 < 64) by (bit_vector);
    assert(((b0 & 3) << 4) | (b1 >> 4) < 64) by (bit_vector);
    assert(((b1 & 15) << 2) | (b2 >> 6) < 64) by (bit_vector);
    assert(b2 & 63 < 64) by (bit_vector);
    assert(((b0 >> 2) << 2) | ((((b0 & 3) << 4) | (b1 >> 4)) >> 4) == b0) by (bit_vector);
    assert((((((b0 & 3) << 4) | (b1 >> 4)) & 15) << 4) | ((((b1 & 15) << 2) | (b2 >> 6)) >> 2)
        == b1) by (bit_vector);
    assert((((((b1 & 15) << 2) | (b2 >> 6)) & 3) << 6) | (b2 & 63) == b2) by (bit_vector);
    assert(b2 == 0 ==> (b2 & 63) == 0 && (((b1 & 15) << 2) | (b2 >> 6)) & 3 == 0)
        by (bit_vector);
    assert(b1 == 0 && b2 == 0 ==> (((b1 & 15) << 2) | (b2 >> 6)) == 0 && (((b0 & 3) << 4) | (b1
        >> 4)) & 15 == 0) by (bit_vector);
}

/// Gathering four values below 64 and spreading the bytes gives the values
/// back.
pub proof fn lemma_gather_spread(v0: u8, v1: u8, v2: u8, v3: u8)
    requires
        v0 < 64,
        v1 < 64,
        v2 < 64,
        v3 < 64,
    ensures
        spread(gather(v0, v1, v2, v3).0, gather(v0, v1, v2, v3).1, gather(v0, v1, v2, v3).2) == (
            v0,
            v1,
            v2,
            v3,
        ),
        v3 == 0 && v2 & 3 == 0 ==> gather(v0, v1, v2, v3).2 == 0,
        v3 == 0 && v2 == 0 && v1 & 15 == 0 ==> gather(v0, v1, v2, v3).1 == 0,
{
    assert(v0 < 64 && v1 < 64 ==> ((v0 << 2) | (v1 >> 4)) >> 2 == v0) by (bit_vector);
    assert(v0 < 64 && v1 < 64 && v2 < 64 ==> ((((v0 << 2) | (v1 >> 4)) & 3) << 4) | ((((v1 & 15)
        << 4) | (v2 >> 2)) >> 4) == v1) by (bit_vector);
    assert(v1 < 64 && v2 < 64 && v3 < 64 ==> (((((v1 & 15) << 4) | (v2 >> 2)) & 15) << 2) | ((((v2
        & 3) << 6) | v3) >> 6) == v2) by (bit_vector);
    assert(v2 < 64 && v3 < 64 ==> (((v2 & 3) << 6) | v3) & 63 == v3) by (bit_vector);
    assert(v3 == 0 && v2 & 3 == 0 ==> (((v2 & 3) << 6) | v3) == 0) by (bit_vector);
    assert(v2 == 0 && v1 & 15 == 0 ==> (((v1 & 15) << 4) | (v2 >> 2)) == 0) by (bit_vector);
}

/// Decoding what was encoded gives the bytes back.
pub proof fn law_decode_inverts_encode(bytes: Seq<u8>)
    ensures
        decode_spec(encode_spec(bytes)) == Some(bytes),
    decreases bytes.len(),
{
    let text = encode_spec(bytes);
    if bytes.len() == 0 {
    } else if bytes.len() == 1 {
        let v = spread(bytes[0], 0, 0);
        lemma_spread_gather(bytes[0], 0, 0);
        lemma_symbol_value(v.0);
        lemma_symbol_value(v.1);
        assert(decode_spec(text).unwrap() =~= bytes);
    } else if bytes.len() == 2 {
        let v = spread(bytes[0], bytes[1], 0);
        lemma_spread_gather(bytes[0], bytes[1], 0);
        lemma_symbol_value(v.0);
        lemma_symbol_value(v.1);
        lemma_symbol_value(v.2);
        assert(decode_spec(text).unwrap() =~= bytes);
    } else {
        let v = spread(bytes[0], bytes[1], bytes[2]);
        lemma_spread_gather(bytes[0], bytes[1], bytes[2]);
        lemma_symbol_value(v.0);
        lemma_symbol_value(v.1);
        lemma_symbol_value(v.2);
        lemma_symbol_value(v.3);
        let rest = bytes.skip(3);
        law_decode_inverts_encode(rest);
        let head = seq![symbol(v.0), symbol(v.1), symbol(v.2), symbol(v.3)];
        assert(text == head + encode_spec(rest));
        assert(text.skip(4) =~= encode_spec(rest));
        if rest.len() == 0 {
            assert(text.len() == 4);
            assert(decode_spec(text).unwrap() =~= bytes);
        } else {
            lemma_encoding_length(rest);
            assert(text.len() > 4);
            assert(seq![bytes[0], bytes[1], bytes[2]] + rest =~= bytes);
        }
    }
}

/// An encoding is four characters long for each three bytes or part of
/// three bytes.
pub proof fn lemma_encoding_length(bytes: Seq<u8>)
    ensures
        encode_spec(bytes).len() % 4 == 0,
        bytes.len() > 0 ==> encode_spec(bytes).len() >= 4,
        bytes.len() == 0 ==> encode_spec(bytes).len() == 0,
    decreases bytes.len(),
{
    if bytes.len() >= 3 {
        lemma_encoding_length(bytes.skip(3));
    }
}

/// What decodes is the encoding of what it decodes to: no two texts decode
/// to the same bytes.
pub proof fn law_encode_inverts_decode(text: Seq<char>)
    requires
        decode_spec(text) is Some,
    ensures
        encode_spec(decode_spec(text)->0) == text,
    decreases text.len(),
{
    let bytes = decode_spec(text)->0;
    if text.len() == 0 {
    } else if text.len() == 4 {
        let (c0, c1, c2, c3) = (text[0], text[1], text[2], text[3]);
        lemma_value_symbol(c0);
        lemma_value_symbol(c1);
        let v0 = symbol_value(c0)->0;
        let v1 = symbol_value(c1)->0;
        if c3 != padding() {
            lemma_value_symbol(c2);
            lemma_value_symbol(c3);
            lemma_gather_spread(v0, v1, symbol_value(c2)->0, symbol_value(c3)->0);
            assert(bytes.skip(3) =~= Seq::<u8>::empty());
            assert(encode_spec(bytes.skip(3)) =~= Seq::<char>::empty());
            assert(encode_spec(bytes) =~= text);
        } else if c2 != padding() {
            lemma_value_symbol(c2);
            lemma_gather_spread(v0, v1, symbol_value(c2)->0, 0);
            assert(encode_spec(bytes) =~= text);
        } else {
            lemma_gather_spread(v0, v1, 0, 0);
            assert(encode_spec(bytes) =~= text);
        }
    } else {
        let (c0, c1, c2, c3) = (text[0], text[1], text[2], text[3]);
        lemma_value_symbol(c0);
        lemma_value_symbol(c1);
        lemma_value_symbol(c2);
        lemma_value_symbol(c3);
        lemma_gather_spread(
            symbol_value(c0)->0,
            symbol_value(c1)->0,
            symbol_value(c2)->0,
            symbol_value(c3)->0,
        );
        let tail = decode_spec(text.skip(4))->0;
        law_encode_inverts_decode(text.skip(4));
        assert(bytes.skip(3) =~= tail);
        assert(encode_spec(bytes) =~= text);
    }
}

/// The value of a symbol of the standard alphabet.
pub fn value_of(c: char) -> (r: Option<u8>)
    ensures
        r == symbol_value(c),
{
    let n: u32 = c as u32;
    if 65 <= n && n <= 90 {
        Some((n - 65) as u8)
    } else if 97 <= n && n <= 122 {
        Some((n - 97 + 26) as u8)
    } else if 48 <= n && n <= 57 {
        Some((n - 48 + 52) as u8)
    } else if c == '+' {
        Some(62u8)
    } else if c == '/' {
        Some(63u8)
    } else {
        None
    }
}

/// Appends the bytes of the group `chars[at..at + 4]`, which may end in
/// padding where `last` is set. Returns whether the group is well formed.
fn decode_group_into(chars: &Vec<char>, at: usize, last: bool, out: &mut Vec<u8>) -> (ok: bool)
    requires
        at + 4 <= chars.len(),
    ensures
        ({
            let group = if last {
                decode_last_group(
                    chars@[at as int],
                    chars@[at + 1],
                    chars@[at + 2],
                    chars@[at + 3],
                )
            } else {
                decode_group(chars@[at as int], chars@[at + 1], chars@[at + 2], chars@[at + 3])
            };
            match group {
                Some(bytes) => ok && final(out)@ == old(out)@ + bytes,
                None => !ok && final(out)@ == old(out)@,
            }
        }),
{
    let c2 = chars[at + 2];
    let c3 = chars[at + 3];
    let (v0, v1) = match (value_of(chars[at]), value_of(chars[at + 1])) {
        (Some(v0), Some(v1)) => (v0, v1),
        _ => {
            return false;
        },
    };
    proof {
        lemma_value_symbol(chars@[at as int]);
        lemma_value_symbol(chars@[at + 1]);
    }
    if last && c3 == '=' {
        if c2 == '=' {
            if v1 & 15 != 0 {
                return false;
            }
            out.push((v0 << 2) | (v1 >> 4));
            assert(out@ =~= old(out)@ + seq![gather(v0, v1, 0, 0).0]);
            return true;
        }
        let v2 = match value_of(c2) {
            Some(v2) => v2,
            None => {
                return false;
            },
        };
        if v2 & 3 != 0 {
            return false;
        }
        out.push((v0 << 2) | (v1 >> 4));
        out.push(((v1 & 15) << 4) | (v2 >> 2));
        assert(out@ =~= old(out)@ + seq![gather(v0, v1, v2, 0).0, gather(v0, v1, v2, 0).1]);
        return true;
    }
    let (v2, v3) = match (value_of(c2), value_of(c3)) {
        (Some(v2), Some(v3)) => (v2, v3),
        _ => {
            return false;
        },
    };
    out.push((v0 << 2) | (v1 >> 4));
    out.push(((v1 & 15) << 4) | (v2 >> 2));
    out.push(((v2 & 3) << 6) | v3);
    assert(out@ =~= old(out)@ + seq![
        gather(v0, v1, v2, v3).0,
        gather(v0, v1, v2, v3).1,
        gather(v0, v1, v2, v3).2,
    ]);
    true
}

/// The view of optional bytes.
pub open spec fn opt_bytes(bytes: Option<Vec<u8>>) -> Option<Seq<u8>> {
    match bytes {
        Some(b) => Some(b@),
        None => None,
    }
}

/// Decodes a text in base64. A text decodes exactly if it is the encoding of
/// some bytes, and then to those bytes.
#[verifier::loop_isolation(false)]
pub fn decode_base64(text: &str) -> (r: Option<Vec<u8>>)
    ensures
        opt_bytes(r) == decode_spec(text@),
        r matches Some(bytes) ==> encode_spec(bytes@) == text@,
        r is None ==> forall|bytes: Seq<u8>| encode_spec(bytes) != text@,
{
    let chars = to_chars(text);
    let n = chars.len();
    let mut out: Vec<u8> = Vec::new();
    proof {
        if decode_spec(text@) is Some {
            law_encode_inverts_decode(text@);
        }
        assert forall|bytes: Seq<u8>| decode_spec(text@) is None implies encode_spec(bytes)
            != text@ by {
            law_decode_inverts_encode(bytes);
        }
        assert(chars@.skip(0) == chars@);
    }
    if n == 0 {
        return Some(out);
    }
    let mut at: usize = 0;
    while n - at > 4
        invariant
            at < n == chars.len(),
            decode_spec(chars@) == match decode_spec(chars@.skip(at as int)) {
                Some(tail) => Some(out@ + tail),
                None => None,
            },
        decreases n - at,
    {
        let ghost rest = chars@.skip(at as int);
        let ghost done = out@;
        proof {
            assert(rest.skip(4) == chars@.skip(at + 4));
            assert(rest[0] == chars@[at as int] && rest[1] == chars@[at + 1] && rest[2]
                == chars@[at + 2] && rest[3] == chars@[at + 3]);
        }
        if !decode_group_into(&chars, at, false, &mut out) {
            return None;
        }
        proof {
            let head = decode_group(rest[0], rest[1], rest[2], rest[3])->0;
            match decode_spec(rest.skip(4)) {
                Some(tail) => {
                    assert((done + head) + tail =~= done + (head + tail));
                },
                None => {},
            }
        }
        at += 4;
    }
    let ghost rest = chars@.skip(at as int);
    if n - at < 4 {
        assert(0 < rest.len() < 4);
        return None;
    }
    proof {
        assert(rest.len() == 4);
        assert(rest[0] == chars@[at as int] && rest[1] == chars@[at + 1] && rest[2] == chars@[at
            + 2] && rest[3] == chars@[at + 3]);
    }
    if !decode_group_into(&chars, at, true, &mut out) {
        return None;
    }
    Some(out)
}

} // verus!
