//! Language detection for the sample-cloning backend.
//!
//! The statistical detection itself is the work of the `whatlang` crate. This
//! module maps what it detects to the language codes that the backend and
//! the voice clips use, and falls back to English where the backend has no
//! use for the detected language.

use crate::text::{opt_text, same_chars, to_chars};
use vstd::prelude::*;

verus! {

/// The ISO 639-3 code of the language that `whatlang::detect` finds in a
/// text, or `None` where it finds none. In one build of the library the
/// detection depends on the text alone; which of two languages with equal
/// scores comes first is left to the sort of the standard library that the
/// build was made with.
pub uninterp spec fn detected_iso_code(text: Seq<char>) -> Option<Seq<char>>;

/// Calls `whatlang::detect` and hands on the ISO 639-3 code of the language
/// in its result, as `whatlang::Lang::code` gives it. Nothing is claimed of
/// which language is detected, only that the text decides it.
#[verifier::external_body]
fn detect_iso_code(text: &str) -> (r: Option<String>)
    ensures
        opt_text(r) == detected_iso_code(text@),
{
    match whatlang::detect(text) {
        Some(info) => Some(info.lang().code().to_string()),
        None => None,
    }
}

/// The backend's code for a language given by its ISO 639-3 code. The
/// languages that the backend speaks have a code of their own; every other
/// language is spoken as English.
pub open spec fn language_code_spec(iso: Seq<char>) -> Seq<char> {
    if iso == "eng"@ {
        "en"@
    } else if iso == "spa"@ {
        "es"@
    } else if iso == "fra"@ {
        "fr"@
    } else if iso == "deu"@ {
        "de"@
    } else if iso == "ita"@ {
        "it"@
    } else if iso == "por"@ {
        "pt"@
    } else if iso == "pol"@ {
        "pl"@
    } else if iso == "tur"@ {
        "tr"@
    } else if iso == "rus"@ {
        "ru"@
    } else if iso == "nld"@ {
        "nl"@
    } else if iso == "ces"@ {
        "cs"@
    } else if iso == "ara"@ {
        "ar"@
    } else if iso == "cmn"@ {
        "zh-cn"@
    } else if iso == "jpn"@ {
        "ja"@
    } else if iso == "hun"@ {
        "hu"@
    } else if iso == "kor"@ {
        "ko"@
    } else if iso == "hin"@ {
        "hi"@
    } else {
        "en"@
    }
}

/// Whether `iso` is the code `code`.
fn is_code(iso: &Vec<char>, code: &str) -> (r: bool)
    ensures
        r == (iso@ == code@),
{
    let other = to_chars(code);
    same_chars(iso, &other)
}

/// The backend's code for a language given by its ISO 639-3 code.
pub fn language_code(iso: &str) -> (code: String)
    ensures
        code@ == language_code_spec(iso@),
{
    let chars = to_chars(iso);
    let code: &str = if is_code(&chars, "eng") {
        "en"
    } else if is_code(&chars, "spa") {
        "es"
    } else if is_code(&chars, "fra") {
        "fr"
    } else if is_code(&chars, "deu") {
        "de"
    } else if is_code(&chars, "ita") {
        "it"
    } else if is_code(&chars, "por") {
        "pt"
    } else if is_code(&chars, "pol") {
        "pl"
    } else if is_code(&chars, "tur") {
        "tr"
    } else if is_code(&chars, "rus") {
        "ru"
    } else if is_code(&chars, "nld") {
        "nl"
    } else if is_code(&chars, "ces") {
        "cs"
    } else if is_code(&chars, "ara") {
        "ar"
    } else if is_code(&chars, "cmn") {
        "zh-cn"
    } else if is_code(&chars, "jpn") {
        "ja"
    } else if is_code(&chars, "hun") {
        "hu"
    } else if is_code(&chars, "kor") {
        "ko"
    } else if is_code(&chars, "hin") {
        "hi"
    } else {
        "en"
    };
    code.to_owned()
}

/// The backend's code for the language detected in a text.
pub open spec fn detect_language_spec(text: Seq<char>) -> Option<Seq<char>> {
    match detected_iso_code(text) {
        Some(iso) => Some(language_code_spec(iso)),
        None => None,
    }
}

/// Detects the language of `text` and returns the backend's code for it:
/// `None` where no language can be told, `en` for a language that the
/// backend does not speak.
pub fn detect_language(text: &str) -> (r: Option<String>)
    ensures
        opt_text(r) == detect_language_spec(text@),
{
    match detect_iso_code(text) {
        Some(iso) => Some(language_code(iso.as_str())),
        None => None,
    }
}

/// The language to synthesise in: the detected one, or English where none
/// was detected.
pub fn language_or_default(detected: Option<String>) -> (language: String)
    ensures
        language@ == match detected {
            Some(code) => code@,
            None => "en"@,
        },
{
    match detected {
        Some(code) => code,
        None => "en".to_owned(),
    }
}

} // verus!
