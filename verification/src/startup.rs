//! What is made of the lists that the synthesis service hands out when the
//! program starts: the voices of the cloud backend by language and variant,
//! and the languages that the service translates into.
//!
//! A list that cannot be fetched is no reason to stop: the program starts
//! with an empty one.

use crate::text::{
    find_from, first_index, same_chars, same_text, string_of, substring, to_chars,
};
use vstd::prelude::*;

verus! {

/// The list that a fetch returned, or an empty one where the fetch failed.
pub fn or_empty<T>(fetched: Option<Vec<T>>) -> (list: Vec<T>)
    ensures
        list@ == match fetched {
            Some(l) => l@,
            None => Seq::empty(),
        },
{
    match fetched {
        Some(list) => list,
        None => Vec::new(),
    }
}

/// The gender that the cloud backend gives a voice.
#[derive(Debug, Clone, Copy, PartialEq, Eq, Structural)]
pub enum GoogleGender {
    Male,
    Female,
}

/// A voice as the cloud backend lists it.
#[derive(Debug)]
pub struct GoogleVoice {
    /// The name: language, region, kind and variant, set apart by `-`.
    pub name: String,
    /// The gender of the voice.
    pub ssml_gender: GoogleGender,
    /// The language and region that the voice speaks.
    pub language_code: String,
}

/// A variant of the standard voice of a language.
#[derive(Debug, PartialEq, Eq)]
pub struct GoogleVariant {
    pub variant: String,
    pub gender: GoogleGender,
}

/// The standard voices of one language.
#[derive(Debug, PartialEq, Eq)]
pub struct GoogleLanguage {
    pub language: String,
    pub variants: Vec<GoogleVariant>,
}

/// A variant, as plain values.
pub struct VariantView {
    pub variant: Seq<char>,
    pub gender: GoogleGender,
}

/// The standard voices of a language, as plain values.
pub struct LanguageView {
    pub language: Seq<char>,
    pub variants: Seq<VariantView>,
}

impl View for GoogleVariant {
    type V = VariantView;

    open spec fn view(&self) -> VariantView {
        VariantView { variant: self.variant@, gender: self.gender }
    }
}

/// The views of a list of variants.
pub open spec fn variant_views(variants: Seq<GoogleVariant>) -> Seq<VariantView> {
    Seq::new(variants.len(), |k: int| variants[k]@)
}

impl View for GoogleLanguage {
    type V = LanguageView;

    open spec fn view(&self) -> LanguageView {
        LanguageView { language: self.language@, variants: variant_views(self.variants@) }
    }
}

/// The views of a list of languages.
pub open spec fn language_views(languages: Seq<GoogleLanguage>) -> Seq<LanguageView> {
    Seq::new(languages.len(), |k: int| languages[k]@)
}

/// What follows the first `c` in `s`, if `s` holds one.
pub open spec fn after_first(s: Seq<char>, c: char) -> Option<Seq<char>> {
    let at = first_index(s, c);
    if at < s.len() {
        Some(s.skip(at + 1))
    } else {
        None
    }
}

/// The kind of voice that is listed.
pub open spec fn standard_kind() -> Seq<char> {
    "Standard"@
}

/// The variant that the name of a standard voice ends in. A name is made of
/// language, region, kind and variant, set apart by `-`; the variant is all
/// that follows the kind.
pub open spec fn standard_variant_spec(name: Seq<char>) -> Option<Seq<char>> {
    match after_first(name, '-') {
        Some(behind_language) => match after_first(behind_language, '-') {
            Some(kind_and_variant) => {
                let dash = first_index(kind_and_variant, '-');
                if dash < kind_and_variant.len() && kind_and_variant.take(dash) == standard_kind() {
                    Some(kind_and_variant.skip(dash + 1))
                } else {
                    None
                }
            },
            None => None,
        },
        None => None,
    }
}

/// The variant of a standard voice, from its name; none for a voice of
/// another kind, or for a name of another make.
pub fn standard_variant(name: &str) -> (r: Option<String>)
    ensures
        (match r {
            Some(v) => Some(v@),
            None => None,
        }) == standard_variant_spec(name@),
{
    let chars = to_chars(name);
    let n = chars.len();
    assert(chars@.skip(0) == chars@);
    let first = find_from(&chars, 0, '-');
    if first >= n {
        return None;
    }
    let second = find_from(&chars, first + 1, '-');
    if second >= n {
        return None;
    }
    let third = find_from(&chars, second + 1, '-');
    proof {
        let behind_language = chars@.skip(first + 1);
        assert(behind_language.skip(second - first) == chars@.skip(second + 1));
        let kind_and_variant = chars@.skip(second + 1);
        assert(kind_and_variant.take(third - second - 1) == chars@.subrange(
            second + 1,
            third as int,
        ));
        if third < n {
            assert(kind_and_variant.skip(third - second) == chars@.subrange(
                third + 1,
                n as int,
            ));
        }
    }
    if third >= n {
        return None;
    }
    let kind = substring(&chars, second + 1, third);
    if same_text(kind.as_str(), "Standard") {
        Some(substring(&chars, third + 1, n))
    } else {
        None
    }
}

/// Position of the variant named `variant`, or the number of variants.
pub open spec fn variant_position(variants: Seq<VariantView>, variant: Seq<char>) -> int
    decreases variants.len(),
{
    if variants.len() == 0 || variants[0].variant == variant {
        0
    } else {
        1 + variant_position(variants.drop_first(), variant)
    }
}

/// Position of the language `language`, or the number of languages.
pub open spec fn language_position(languages: Seq<LanguageView>, language: Seq<char>) -> int
    decreases languages.len(),
{
    if languages.len() == 0 || languages[0].language == language {
        0
    } else {
        1 + language_position(languages.drop_first(), language)
    }
}

/// `language_position` is the first position that holds `language`.
pub proof fn lemma_language_position(languages: Seq<LanguageView>, language: Seq<char>)
    ensures
        0 <= language_position(languages, language) <= languages.len(),
        language_position(languages, language) < languages.len() ==> languages[language_position(
            languages,
            language,
        )].language == language,
        forall|j: int|
            0 <= j < language_position(languages, language) ==> (#[trigger] languages[j]).language
                != language,
    decreases languages.len(),
{
    if languages.len() == 0 || languages[0].language == language {
    } else {
        let rest = languages.drop_first();
        lemma_language_position(rest, language);
        assert forall|j: int| 0 <= j < language_position(languages, language) implies (
        #[trigger] languages[j]).language != language by {
            if j > 0 {
                assert(languages[j] == rest[j - 1]);
            }
        }
    }
}

/// `variant_position` is the first position that holds `variant`.
pub proof fn lemma_variant_position(variants: Seq<VariantView>, variant: Seq<char>)
    ensures
        0 <= variant_position(variants, variant) <= variants.len(),
        variant_position(variants, variant) < variants.len() ==> variants[variant_position(
            variants,
            variant,
        )].variant == variant,
        forall|j: int|
            0 <= j < variant_position(variants, variant) ==> (#[trigger] variants[j]).variant
                != variant,
    decreases variants.len(),
{
    if variants.len() == 0 || variants[0].variant == variant {
    } else {
        let rest = variants.drop_first();
        lemma_variant_position(rest, variant);
        assert forall|j: int| 0 <= j < variant_position(variants, variant) implies (
        #[trigger] variants[j]).variant != variant by {
            if j > 0 {
                assert(variants[j] == rest[j - 1]);
            }
        }
    }
}

/// No variant occurs twice.
pub open spec fn variants_distinct(variants: Seq<VariantView>) -> bool {
    forall|j: int, k: int|
        0 <= j < k < variants.len() ==> (#[trigger] variants[j]).variant != (
        #[trigger] variants[k]).variant
}

/// The table stands for a map: no language occurs twice, and under no
/// language a variant occurs twice.
pub open spec fn table_has_no_doubles(table: Seq<LanguageView>) -> bool {
    &&& forall|j: int, k: int|
        0 <= j < k < table.len() ==> (#[trigger] table[j]).language != (
        #[trigger] table[k]).language
    &&& forall|k: int| 0 <= k < table.len() ==> variants_distinct((#[trigger] table[k]).variants)
}

/// The variants once `variant` has the gender `gender`.
pub open spec fn put_variant(variants: Seq<VariantView>, variant: Seq<char>, gender: GoogleGender) -> Seq<
    VariantView,
> {
    let at = variant_position(variants, variant);
    if at < variants.len() {
        variants.update(at, VariantView { variant, gender })
    } else {
        variants.push(VariantView { variant, gender })
    }
}

/// The table once the variant of a language is entered: under its language,
/// which joins the table at the end where it is new.
pub open spec fn put_voice(
    table: Seq<LanguageView>,
    language: Seq<char>,
    variant: Seq<char>,
    gender: GoogleGender,
) -> Seq<LanguageView> {
    let at = language_position(table, language);
    if at < table.len() {
        table.update(
            at,
            LanguageView { language, variants: put_variant(table[at].variants, variant, gender) },
        )
    } else {
        table.push(
            LanguageView { language, variants: seq![VariantView { variant, gender }] },
        )
    }
}

/// Entering a variant leaves no variant twice.
proof fn lemma_put_variant_distinct(
    variants: Seq<VariantView>,
    variant: Seq<char>,
    gender: GoogleGender,
)
    requires
        variants_distinct(variants),
    ensures
        variants_distinct(put_variant(variants, variant, gender)),
{
    lemma_variant_position(variants, variant);
    let at = variant_position(variants, variant);
    let after = put_variant(variants, variant, gender);
    assert forall|j: int, k: int| 0 <= j < k < after.len() implies (#[trigger] after[j]).variant
        != (#[trigger] after[k]).variant by {
        if at < variants.len() {
            assert(after[j].variant == variants[j].variant);
            assert(after[k].variant == variants[k].variant);
        } else {
            assert(after[j] == variants[j]);
            if k < variants.len() {
                assert(after[k] == variants[k]);
            }
        }
    }
}

/// Entering a voice leaves no language and no variant twice.
proof fn lemma_put_voice_no_doubles(
    table: Seq<LanguageView>,
    language: Seq<char>,
    variant: Seq<char>,
    gender: GoogleGender,
)
    requires
        table_has_no_doubles(table),
    ensures
        table_has_no_doubles(put_voice(table, language, variant, gender)),
{
    lemma_language_position(table, language);
    let at = language_position(table, language);
    let after = put_voice(table, language, variant, gender);
    if at < table.len() {
        lemma_put_variant_distinct(table[at].variants, variant, gender);
    }
    assert forall|j: int, k: int| 0 <= j < k < after.len() implies (#[trigger] after[j]).language
        != (#[trigger] after[k]).language by {
        if at < table.len() {
            assert(after[j].language == table[j].language);
            assert(after[k].language == table[k].language);
        } else {
            assert(after[j] == table[j]);
            if k < table.len() {
                assert(after[k] == table[k]);
            }
        }
    }
    assert forall|k: int| 0 <= k < after.len() implies variants_distinct(
        (#[trigger] after[k]).variants,
    ) by {
        if k != at {
            assert(after[k] == table[k]);
        }
    }
}

/// The table of standard voices stands for a map: no language occurs
/// twice in it, and under no language a variant occurs twice.
pub proof fn law_gcloud_table_has_no_doubles(raw: Seq<GoogleVoice>, count: int)
    ensures
        table_has_no_doubles(gcloud_table(raw, count)),
    decreases count,
{
    if count > 0 {
        law_gcloud_table_has_no_doubles(raw, count - 1);
        let voice = raw[count - 1];
        match standard_variant_spec(voice.name@) {
            Some(variant) => {
                lemma_put_voice_no_doubles(
                    gcloud_table(raw, count - 1),
                    voice.language_code@,
                    variant,
                    voice.ssml_gender,
                );
            },
            None => {},
        }
    }
}

/// The table of the standard voices among the first `count` listed voices.
pub open spec fn gcloud_table(raw: Seq<GoogleVoice>, count: int) -> Seq<LanguageView>
    decreases count,
{
    if count <= 0 {
        Seq::empty()
    } else {
        let earlier = gcloud_table(raw, count - 1);
        let voice = raw[count - 1];
        match standard_variant_spec(voice.name@) {
            Some(variant) => put_voice(earlier, voice.language_code@, variant, voice.ssml_gender),
            None => earlier,
        }
    }
}

/// Position of the variant named `variant`, or the number of variants.
fn variant_index(variants: &Vec<GoogleVariant>, variant: &Vec<char>) -> (r: usize)
    ensures
        r == variant_position(variant_views(variants@), variant@),
        r <= variants.len(),
{
    let ghost all = variant_views(variants@);
    let mut i: usize = 0;
    assert(all.skip(0) == all);
    while i < variants.len()
        invariant
            i <= variants.len(),
            all == variant_views(variants@),
            variant_position(all, variant@) == i + variant_position(all.skip(i as int), variant@),
        decreases variants.len() - i,
    {
        assert(all.skip(i as int)[0] == variants[i as int]@);
        if same_chars(&to_chars(variants[i].variant.as_str()), variant) {
            return i;
        }
        assert(all.skip(i as int).drop_first() == all.skip(i + 1));
        i += 1;
    }
    i
}

/// Position of the language `language`, or the number of languages.
fn language_index(table: &Vec<GoogleLanguage>, language: &Vec<char>) -> (r: usize)
    ensures
        r == language_position(language_views(table@), language@),
        r <= table.len(),
{
    let ghost all = language_views(table@);
    let mut i: usize = 0;
    assert(all.skip(0) == all);
    while i < table.len()
        invariant
            i <= table.len(),
            all == language_views(table@),
            language_position(all, language@) == i + language_position(
                all.skip(i as int),
                language@,
            ),
        decreases table.len() - i,
    {
        assert(all.skip(i as int)[0] == table[i as int]@);
        if same_chars(&to_chars(table[i].language.as_str()), language) {
            return i;
        }
        assert(all.skip(i as int).drop_first() == all.skip(i + 1));
        i += 1;
    }
    i
}

/// Orders the standard voices of the cloud backend by language and variant.
///
/// A voice whose name does not end in the kind `Standard` and a variant is
/// passed over. Of two voices of one language and variant, the one listed
/// later stays.
pub fn prepare_gcloud_voices(raw_map: Vec<GoogleVoice>) -> (table: Vec<GoogleLanguage>)
    ensures
        language_views(table@) == gcloud_table(raw_map@, raw_map@.len() as int),
        table_has_no_doubles(language_views(table@)),
{
    proof {
        law_gcloud_table_has_no_doubles(raw_map@, raw_map@.len() as int);
    }
    let mut table: Vec<GoogleLanguage> = Vec::new();
    assert(language_views(table@) =~= Seq::<LanguageView>::empty());
    let mut i: usize = 0;
    while i < raw_map.len()
        invariant
            i <= raw_map.len(),
            language_views(table@) == gcloud_table(raw_map@, i as int),
        decreases raw_map.len() - i,
    {
        let voice = &raw_map[i];
        match standard_variant(voice.name.as_str()) {
            Some(variant) => {
                let language = to_chars(voice.language_code.as_str());
                let variant_chars = to_chars(variant.as_str());
                let ghost before = language_views(table@);
                let entry = GoogleVariant { variant, gender: voice.ssml_gender };
                let at = language_index(&table, &language);
                proof {
                    lemma_language_position(before, language@);
                }
                if at < table.len() {
                    let ghost variants = table[at as int]@.variants;
                    let ghost name = table[at as int].language@;
                    let v = variant_index(&table[at].variants, &variant_chars);
                    if v < table[at].variants.len() {
                        table[at].variants.set(v, entry);
                        assert(variant_views(table[at as int].variants@) =~= variants.update(
                            v as int,
                            entry@,
                        ));
                    } else {
                        table[at].variants.push(entry);
                        assert(variant_views(table[at as int].variants@) =~= variants.push(
                            entry@,
                        ));
                    }
                    assert(table[at as int].language@ == name);
                    assert(language_views(table@) =~= before.update(
                        at as int,
                        LanguageView {
                            language: language@,
                            variants: put_variant(variants, variant_chars@, voice.ssml_gender),
                        },
                    ));
                } else {
                    let mut variants: Vec<GoogleVariant> = Vec::new();
                    variants.push(entry);
                    assert(variant_views(variants@) =~= seq![entry@]);
                    table.push(GoogleLanguage { language: string_of(&language), variants });
                    assert(language_views(table@) =~= before.push(
                        LanguageView { language: language@, variants: seq![entry@] },
                    ));
                }
            },
            None => {},
        }
        i += 1;
    }
    table
}

/// A character in lower case, as far as ASCII goes.
pub open spec fn ascii_lower(c: char) -> char {
    if 'A' <= c <= 'Z' {
        ((c as u8) + 32) as char
    } else {
        c
    }
}

/// A text with its ASCII letters in lower case.
pub open spec fn ascii_lowercase(s: Seq<char>) -> Seq<char> {
    Seq::new(s.len(), |i: int| ascii_lower(s[i]))
}

/// A text with its ASCII letters in lower case.
pub fn to_ascii_lowercase(s: &str) -> (r: Vec<char>)
    ensures
        r@ == ascii_lowercase(s@),
{
    let chars = to_chars(s);
    let mut r: Vec<char> = Vec::new();
    let mut i: usize = 0;
    while i < chars.len()
        invariant
            i <= chars.len(),
            chars@ == s@,
            r@ == ascii_lowercase(s@).take(i as int),
        decreases chars.len() - i,
    {
        let c = chars[i];
        let lower: char = if 'A' <= c && c <= 'Z' {
            ((c as u8) + 32) as char
        } else {
            c
        };
        r.push(lower);
        i += 1;
        assert(r@ =~= ascii_lowercase(s@).take(i as int));
    }
    assert(ascii_lowercase(s@).take(i as int) == ascii_lowercase(s@));
    r
}

/// Position of the language whose code is `code`, or the number of entries.
pub open spec fn code_position(entries: Seq<(Seq<char>, Seq<char>)>, code: Seq<char>) -> int
    decreases entries.len(),
{
    if entries.len() == 0 || entries[0].0 == code {
        0
    } else {
        1 + code_position(entries.drop_first(), code)
    }
}

/// `code_position` is the first position that holds `code`.
pub proof fn lemma_code_position(entries: Seq<(Seq<char>, Seq<char>)>, code: Seq<char>)
    ensures
        0 <= code_position(entries, code) <= entries.len(),
        code_position(entries, code) < entries.len() ==> entries[code_position(entries, code)].0
            == code,
        forall|j: int| 0 <= j < code_position(entries, code) ==> (#[trigger] entries[j]).0 != code,
    decreases entries.len(),
{
    if entries.len() == 0 || entries[0].0 == code {
    } else {
        let rest = entries.drop_first();
        lemma_code_position(rest, code);
        assert forall|j: int| 0 <= j < code_position(entries, code) implies (
        #[trigger] entries[j]).0 != code by {
            if j > 0 {
                assert(entries[j] == rest[j - 1]);
            }
        }
    }
}

/// The entries stand for a map: no code occurs twice.
pub open spec fn codes_distinct(entries: Seq<(Seq<char>, Seq<char>)>) -> bool {
    forall|j: int, k: int|
        0 <= j < k < entries.len() ==> (#[trigger] entries[j]).0 != (#[trigger] entries[k]).0
}

/// The table of translation languages stands for a map: no code occurs
/// twice in it.
pub proof fn law_translation_table_has_no_doubles(raw: Seq<(String, String)>, count: int)
    ensures
        codes_distinct(translation_table(raw, count)),
    decreases count,
{
    if count > 0 {
        law_translation_table_has_no_doubles(raw, count - 1);
        let earlier = translation_table(raw, count - 1);
        let after = translation_table(raw, count);
        let code = ascii_lowercase(raw[count - 1].0@);
        lemma_code_position(earlier, code);
        let at = code_position(earlier, code);
        assert forall|j: int, k: int| 0 <= j < k < after.len() implies (#[trigger] after[j]).0 != (
        #[trigger] after[k]).0 by {
            if at < earlier.len() {
                assert(after[j].0 == earlier[j].0);
                assert(after[k].0 == earlier[k].0);
            } else {
                assert(after[j] == earlier[j]);
                if k < earlier.len() {
                    assert(after[k] == earlier[k]);
                }
            }
        }
    }
}

/// The translation languages among the first `count` listed ones, by code
/// in lower case; of two names for one code the one listed later stays.
pub open spec fn translation_table(raw: Seq<(String, String)>, count: int) -> Seq<
    (Seq<char>, Seq<char>),
>
    decreases count,
{
    if count <= 0 {
        Seq::empty()
    } else {
        let earlier = translation_table(raw, count - 1);
        let code = ascii_lowercase(raw[count - 1].0@);
        let name = raw[count - 1].1@;
        let at = code_position(earlier, code);
        if at < earlier.len() {
            earlier.update(at, (code, name))
        } else {
            earlier.push((code, name))
        }
    }
}

/// The codes and names held by a list of pairs of strings.
pub open spec fn pair_views(pairs: Seq<(String, String)>) -> Seq<(Seq<char>, Seq<char>)> {
    Seq::new(pairs.len(), |k: int| (pairs[k].0@, pairs[k].1@))
}

/// Position of the language whose code is `code`, or the number of entries.
fn code_index(table: &Vec<(String, String)>, code: &Vec<char>) -> (r: usize)
    ensures
        r == code_position(pair_views(table@), code@),
        r <= table.len(),
{
    let ghost all = pair_views(table@);
    let mut at: usize = 0;
    assert(all.skip(0) == all);
    while at < table.len()
        invariant
            at <= table.len(),
            all == pair_views(table@),
            code_position(all, code@) == at + code_position(all.skip(at as int), code@),
        decreases table.len() - at,
    {
        assert(all.skip(at as int)[0].0 == table[at as int].0@);
        if same_chars(&to_chars(table[at].0.as_str()), code) {
            return at;
        }
        assert(all.skip(at as int).drop_first() == all.skip(at + 1));
        at += 1;
    }
    at
}

/// The languages that the service translates into, by language code. The
/// codes are taken in lower case.
pub fn translation_languages(raw: Vec<(String, String)>) -> (table: Vec<(String, String)>)
    ensures
        pair_views(table@) == translation_table(raw@, raw@.len() as int),
        codes_distinct(pair_views(table@)),
{
    proof {
        law_translation_table_has_no_doubles(raw@, raw@.len() as int);
    }
    let mut table: Vec<(String, String)> = Vec::new();
    assert(pair_views(table@) =~= Seq::<(Seq<char>, Seq<char>)>::empty());
    let mut i: usize = 0;
    while i < raw.len()
        invariant
            i <= raw.len(),
            pair_views(table@) == translation_table(raw@, i as int),
        decreases raw.len() - i,
    {
        let code = to_ascii_lowercase(raw[i].0.as_str());
        let name = raw[i].1.clone();
        let ghost before = pair_views(table@);
        let at = code_index(&table, &code);
        let entry = (string_of(&code), name);
        if at < table.len() {
            table.set(at, entry);
            assert(pair_views(table@) =~= before.update(at as int, (code@, name@)));
        } else {
            table.push(entry);
            assert(pair_views(table@) =~= before.push((code@, name@)));
        }
        i += 1;
    }
    table
}

} // verus!
