//! Inline style instructions at the head of a message, and the test for a
//! message that has anything to say.
//!
//! A message may start with an instruction for the speaking style, written
//! as a backslash and one word (`\whisper good night`) or as a phrase in
//! square brackets (`[in a calm voice] good night`). A marker that leaves no
//! instruction or no text to speak is no marker: the message stays as it was.

use crate::text::{
    find_from, first_index, lemma_first_index, lemma_trim_idempotent, opt_text, string_of,
    substring, to_chars, trim, trim_bounds,
};
use vstd::prelude::*;

verus! {

/// An instruction and the text behind it, both trimmed, where neither is
/// empty.
pub open spec fn tagged(instruction: Seq<char>, rest: Seq<char>) -> Option<(Seq<char>, Seq<char>)> {
    if trim(instruction).len() > 0 && trim(rest).len() > 0 {
        Some((trim(instruction), trim(rest)))
    } else {
        None
    }
}

/// The backslash form: a backslash, the instruction up to the first space,
/// the text behind that space.
pub open spec fn backslash_form(content: Seq<char>) -> Option<(Seq<char>, Seq<char>)> {
    if content.len() > 0 && content[0] == '\\' {
        let stripped = content.skip(1);
        let space = first_index(stripped, ' ');
        if space < stripped.len() {
            tagged(stripped.take(space), stripped.skip(space + 1))
        } else {
            None
        }
    } else {
        None
    }
}

/// The bracket form: an opening bracket, the instruction up to the first
/// closing bracket, the text behind that bracket.
pub open spec fn bracket_form(content: Seq<char>) -> Option<(Seq<char>, Seq<char>)> {
    if content.len() > 0 && content[0] == '[' {
        let close = first_index(content, ']');
        if close < content.len() {
            tagged(content.subrange(1, close), content.skip(close + 1))
        } else {
            None
        }
    } else {
        None
    }
}

/// The instruction at the head of `content`, if it has one, and the text to
/// speak: the text behind the instruction, or all of `content`.
pub open spec fn parse_instruction_spec(content: Seq<char>) -> (Option<Seq<char>>, Seq<char>) {
    match backslash_form(content) {
        Some(found) => (Some(found.0), found.1),
        None => match bracket_form(content) {
            Some(found) => (Some(found.0), found.1),
            None => (None, content),
        },
    }
}

/// Trims `chars[lo..mid]` and `chars[next..]` and returns both as strings
/// where neither comes out empty.
fn tagged_parts(chars: &Vec<char>, lo: usize, mid: usize, next: usize) -> (r: Option<
    (String, String),
>)
    requires
        lo <= mid <= next <= chars.len(),
    ensures
        match r {
            Some(p) => Some((p.0@, p.1@)),
            None => None,
        } == tagged(chars@.subrange(lo as int, mid as int), chars@.skip(next as int)),
{
    assert(chars@.skip(next as int) == chars@.subrange(next as int, chars.len() as int));
    let (a, b) = trim_bounds(chars, lo, mid);
    let (x, y) = trim_bounds(chars, next, chars.len());
    if a < b && x < y {
        Some((substring(chars, a, b), substring(chars, x, y)))
    } else {
        None
    }
}

/// Takes an inline style instruction off the head of a message.
///
/// Returns the instruction, if the message starts with one in either form,
/// and the text to speak. Where there is an instruction, it and the text are
/// trimmed and not empty; where there is none, the text is the message,
/// untouched.
pub fn parse_instruction(content: &str) -> (r: (Option<String>, String))
    ensures
        (opt_text(r.0), r.1@) == parse_instruction_spec(content@),
        r.0 is None ==> r.1@ == content@,
        r.0 matches Some(i) ==> i@.len() > 0 && r.1@.len() > 0 && trim(i@) == i@ && trim(r.1@)
            == r.1@,
{
    let chars = to_chars(content);
    proof {
        lemma_instruction_shape(content@);
    }
    let n = chars.len();
    if n > 0 && chars[0] == '\\' {
        let space = find_from(&chars, 1, ' ');
        if space < n {
            assert(chars@.skip(1).take(space - 1) == chars@.subrange(1, space as int));
            assert(chars@.skip(1).skip(space - 1 + 1) == chars@.skip(space + 1));
            match tagged_parts(&chars, 1, space, space + 1) {
                Some((instruction, rest)) => {
                    return (Some(instruction), rest);
                },
                None => {},
            }
        }
    }
    if n > 0 && chars[0] == '[' {
        let close = find_from(&chars, 0, ']');
        assert(chars@.skip(0) == chars@);
        assert(close >= 1) by {
            lemma_first_index(chars@.drop_first(), ']');
        }
        if close < n {
            match tagged_parts(&chars, 1, close, close + 1) {
                Some((instruction, rest)) => {
                    return (Some(instruction), rest);
                },
                None => {},
            }
        }
    }
    (None, string_of(&chars))
}

/// An instruction is never empty and never comes without text, both are
/// trimmed, and a message without an instruction is spoken as it stands.
pub proof fn lemma_instruction_shape(content: Seq<char>)
    ensures
        parse_instruction_spec(content).0 is None ==> parse_instruction_spec(content).1 == content,
        parse_instruction_spec(content).0 matches Some(i) ==> {
            let rest = parse_instruction_spec(content).1;
            i.len() > 0 && rest.len() > 0 && trim(i) == i && trim(rest) == rest
        },
{
    if content.len() > 0 && content[0] == '\\' {
        let stripped = content.skip(1);
        let space = first_index(stripped, ' ');
        lemma_trim_idempotent(stripped.take(space));
        lemma_trim_idempotent(stripped.skip(space + 1));
    }
    if content.len() > 0 && content[0] == '[' {
        let close = first_index(content, ']');
        lemma_trim_idempotent(content.subrange(1, close));
        lemma_trim_idempotent(content.skip(close + 1));
    }
}

/// Characters that give a synthesiser nothing to say: the space and a few
/// marks of punctuation.
pub open spec fn is_unspoken_spec(c: char) -> bool {
    c == ' ' || c == '?' || c == '.' || c == ')' || c == '\'' || c == '!' || c == '"' || c == ':'
}

/// Whether a text has anything to say: some character of it is more than a
/// space or a mark of punctuation.
pub open spec fn has_speakable_content_spec(content: Seq<char>) -> bool {
    exists|i: int| 0 <= i < content.len() && !is_unspoken_spec(#[trigger] content[i])
}

/// Tests a character for one that gives a synthesiser nothing to say.
pub fn is_unspoken(c: char) -> (r: bool)
    ensures
        r == is_unspoken_spec(c),
{
    c == ' ' || c == '?' || c == '.' || c == ')' || c == '\'' || c == '!' || c == '"' || c == ':'
}

/// Whether a message has anything to say once it is cleaned: a message of
/// spaces and punctuation alone is not sent to a backend.
pub fn has_speakable_content(content: &str) -> (r: bool)
    ensures
        r == has_speakable_content_spec(content@),
{
    let chars = to_chars(content);
    let mut i: usize = 0;
    while i < chars.len()
        invariant
            i <= chars.len(),
            chars@ == content@,
            forall|j: int| 0 <= j < i ==> is_unspoken_spec(#[trigger] chars@[j]),
        decreases chars.len() - i,
    {
        if !is_unspoken(chars[i]) {
            assert(!is_unspoken_spec(content@[i as int]));
            return true;
        }
        i += 1;
    }
    false
}

} // verus!
