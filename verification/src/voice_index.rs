//! The voice clip index: which reference sample to hand to the
//! sample-cloning backend for a voice and a language.
//!
//! A voice is a named set of clips, one per language. The index holds the
//! voices by name and always holds one named `default`, so that a lookup of
//! an unknown voice has somewhere to fall back to. It is built once from a
//! scan of the clip directory and only read after that.

use crate::text::{
    behind_last, last_index, opt_text, same_text, string_of, substring, texts_of, to_chars,
};
use vstd::prelude::*;

verus! {

/// The name of the voice that stands in for unknown voices.
pub open spec fn default_voice_name() -> Seq<char> {
    "default"@
}

/// The language whose clip stands in for a missing one.
pub open spec fn fallback_language() -> Seq<char> {
    "en"@
}

/// One voice clip: the sample of one voice in one language.
#[derive(Debug, PartialEq, Eq)]
pub struct VoiceClip {
    /// The voice that the clip belongs to.
    pub voice_name: String,
    /// The language code of the clip.
    pub language: String,
    /// Where the clip lies.
    pub file_path: String,
}

/// What a clip holds, as plain text.
pub struct ClipView {
    pub voice_name: Seq<char>,
    pub language: Seq<char>,
    pub file_path: Seq<char>,
}

impl View for VoiceClip {
    type V = ClipView;

    open spec fn view(&self) -> ClipView {
        ClipView {
            voice_name: self.voice_name@,
            language: self.language@,
            file_path: self.file_path@,
        }
    }
}

/// What a voice holds: its name and its clips in the order in which their
/// languages were first added.
pub struct VoiceView {
    pub name: Seq<char>,
    pub clips: Seq<ClipView>,
}

/// The views of a list of clips.
pub open spec fn clip_views(clips: Seq<VoiceClip>) -> Seq<ClipView> {
    Seq::new(clips.len(), |k: int| clips[k]@)
}

/// Position of the first clip in `language`, or the number of clips where
/// there is none.
pub open spec fn clip_position(clips: Seq<ClipView>, language: Seq<char>) -> int
    decreases clips.len(),
{
    if clips.len() == 0 || clips[0].language == language {
        0
    } else {
        1 + clip_position(clips.drop_first(), language)
    }
}

/// `clip_position` is the first position whose clip is in `language`.
pub proof fn lemma_clip_position(clips: Seq<ClipView>, language: Seq<char>)
    ensures
        0 <= clip_position(clips, language) <= clips.len(),
        clip_position(clips, language) < clips.len() ==> clips[clip_position(
            clips,
            language,
        )].language == language,
        forall|j: int|
            0 <= j < clip_position(clips, language) ==> (#[trigger] clips[j]).language != language,
    decreases clips.len(),
{
    if clips.len() == 0 || clips[0].language == language {
    } else {
        let rest = clips.drop_first();
        lemma_clip_position(rest, language);
        assert forall|j: int| 0 <= j < clip_position(clips, language) implies (
        #[trigger] clips[j]).language != language by {
            if j > 0 {
                assert(clips[j] == rest[j - 1]);
            }
        }
    }
}

/// The clip of a voice in `language`.
pub open spec fn find_clip(clips: Seq<ClipView>, language: Seq<char>) -> Option<ClipView> {
    let p = clip_position(clips, language);
    if p < clips.len() {
        Some(clips[p])
    } else {
        None
    }
}

/// The clips of a voice named `name` are well formed: each belongs to that
/// voice, and no language occurs twice.
pub open spec fn clips_wf(name: Seq<char>, clips: Seq<ClipView>) -> bool {
    &&& forall|k: int| 0 <= k < clips.len() ==> (#[trigger] clips[k]).voice_name == name
    &&& forall|j: int, k: int|
        0 <= j < k < clips.len() ==> (#[trigger] clips[j]).language != (#[trigger] clips[k]).language
}

/// A voice is well formed where its clips are.
pub open spec fn voice_wf(v: VoiceView) -> bool {
    clips_wf(v.name, v.clips)
}

/// The clips once `language` maps to `file_path`: the clip of that language
/// is replaced where there is one, and a new clip is added at the end where
/// there is none.
pub open spec fn insert_clip_spec(v: VoiceView, language: Seq<char>, file_path: Seq<char>) -> VoiceView {
    let clip = ClipView { voice_name: v.name, language, file_path };
    let p = clip_position(v.clips, language);
    if p < v.clips.len() {
        VoiceView { clips: v.clips.update(p, clip), ..v }
    } else {
        VoiceView { clips: v.clips.push(clip), ..v }
    }
}

/// The clip to use for a voice: the one in the requested language; failing
/// that the English one; failing that the first; none where the voice has no
/// clip at all.
pub open spec fn pick_clip_spec(v: VoiceView, language: Option<Seq<char>>) -> Option<ClipView> {
    let exact = match language {
        Some(l) => find_clip(v.clips, l),
        None => None,
    };
    if exact is Some {
        exact
    } else if find_clip(v.clips, fallback_language()) is Some {
        find_clip(v.clips, fallback_language())
    } else if v.clips.len() > 0 {
        Some(v.clips[0])
    } else {
        None
    }
}

impl Clone for VoiceClip {
    fn clone(&self) -> (r: Self)
        ensures
            r == *self,
    {
        VoiceClip {
            voice_name: self.voice_name.clone(),
            language: self.language.clone(),
            file_path: self.file_path.clone(),
        }
    }
}

/// A voice: a name and one clip per language.
#[derive(Debug)]
pub struct Voice {
    name: String,
    clips: Vec<VoiceClip>,
}

impl View for Voice {
    type V = VoiceView;

    closed spec fn view(&self) -> VoiceView {
        VoiceView { name: self.name@, clips: clip_views(self.clips@) }
    }
}

impl Clone for Voice {
    fn clone(&self) -> (r: Self)
        ensures
            r@ == self@,
    {
        proof {
            use_type_invariant(self);
        }
        let mut clips: Vec<VoiceClip> = Vec::new();
        let mut i: usize = 0;
        while i < self.clips.len()
            invariant
                i <= self.clips.len(),
                clips@ == self.clips@.take(i as int),
            decreases self.clips.len() - i,
        {
            clips.push(self.clips[i].clone());
            i += 1;
            assert(clips@ =~= self.clips@.take(i as int));
        }
        assert(self.clips@.take(i as int) == self.clips@);
        Voice { name: self.name.clone(), clips }
    }
}

impl Voice {
    #[verifier::type_invariant]
    spec fn well_formed(self) -> bool {
        clips_wf(self.name@, clip_views(self.clips@))
    }

    /// A voice without clips.
    pub fn new(name: &str) -> (v: Voice)
        ensures
            v@ == (VoiceView { name: name@, clips: Seq::empty() }),
            voice_wf(v@),
    {
        let chars = to_chars(name);
        let v = Voice { name: string_of(&chars), clips: Vec::new() };
        assert(clip_views(v.clips@) =~= Seq::<ClipView>::empty());
        v
    }

    /// The name of the voice.
    pub fn name(&self) -> (r: &String)
        ensures
            r@ == self@.name,
    {
        &self.name
    }

    /// The clips of the voice.
    pub fn clips(&self) -> (r: &Vec<VoiceClip>)
        ensures
            clip_views(r@) == self@.clips,
            voice_wf(self@),
    {
        proof {
            use_type_invariant(self);
        }
        &self.clips
    }

    /// Whether the voice has any clip.
    pub fn has_clips(&self) -> (r: bool)
        ensures
            r == (self@.clips.len() > 0),
    {
        self.clips.len() > 0
    }

    /// Position of the clip in `language`, or the number of clips.
    fn clip_index(&self, language: &str) -> (r: usize)
        ensures
            r == clip_position(self@.clips, language@),
            r <= self.clips.len(),
    {
        let mut i: usize = 0;
        assert(self@.clips.skip(0) == self@.clips);
        while i < self.clips.len()
            invariant
                i <= self.clips.len(),
                clip_position(self@.clips, language@) == i + clip_position(
                    self@.clips.skip(i as int),
                    language@,
                ),
            decreases self.clips.len() - i,
        {
            assert(self@.clips.skip(i as int)[0] == self.clips[i as int]@);
            if same_text(self.clips[i].language.as_str(), language) {
                return i;
            }
            assert(self@.clips.skip(i as int).drop_first() == self@.clips.skip(i + 1));
            i += 1;
        }
        i
    }

    /// The clip in `language`, if the voice has one.
    pub fn clip_for(&self, language: &str) -> (r: Option<&VoiceClip>)
        ensures
            match r {
                Some(c) => Some(c@),
                None => None,
            } == find_clip(self@.clips, language@),
    {
        let i = self.clip_index(language);
        if i < self.clips.len() {
            Some(&self.clips[i])
        } else {
            None
        }
    }

    /// Makes `file_path` the clip of the voice in `language`.
    pub fn insert_clip(&mut self, language: &str, file_path: &str)
        ensures
            final(self)@ == insert_clip_spec(old(self)@, language@, file_path@),
            voice_wf(final(self)@),
    {
        proof {
            use_type_invariant(&*self);
            lemma_clip_position(self@.clips, language@);
        }
        let i = self.clip_index(language);
        let clip = VoiceClip {
            voice_name: self.name.clone(),
            language: string_of(&to_chars(language)),
            file_path: string_of(&to_chars(file_path)),
        };
        let ghost before = self@.clips;
        let mut clips: Vec<VoiceClip> = Vec::new();
        assert(clip_views(clips@) =~= Seq::<ClipView>::empty());
        std::mem::swap(&mut clips, &mut self.clips);
        if i < clips.len() {
            clips.set(i, clip);
            assert(clip_views(clips@) =~= before.update(i as int, clip@));
        } else {
            clips.push(clip);
            assert(clip_views(clips@) =~= before.push(clip@));
        }
        std::mem::swap(&mut clips, &mut self.clips);
    }

    /// The clip to use for `language`: that language's, else the English one,
    /// else the first, else none.
    pub fn pick_clip(&self, language: Option<&str>) -> (r: Option<&VoiceClip>)
        ensures
            match r {
                Some(c) => Some(c@),
                None => None,
            } == pick_clip_spec(
                self@,
                match language {
                    Some(l) => Some(l@),
                    None => None,
                },
            ),
    {
        if let Some(l) = language {
            let exact = self.clip_for(l);
            if exact.is_some() {
                return exact;
            }
        }
        let english = self.clip_for("en");
        if english.is_some() {
            return english;
        }
        if self.clips.len() > 0 {
            Some(&self.clips[0])
        } else {
            None
        }
    }
}

/// The views of a list of voices.
pub open spec fn voice_views(voices: Seq<Voice>) -> Seq<VoiceView> {
    Seq::new(voices.len(), |k: int| voices[k]@)
}

/// Position of the first voice named `name`, or the number of voices where
/// there is none.
pub open spec fn voice_position(voices: Seq<VoiceView>, name: Seq<char>) -> int
    decreases voices.len(),
{
    if voices.len() == 0 || voices[0].name == name {
        0
    } else {
        1 + voice_position(voices.drop_first(), name)
    }
}

/// `voice_position` is the first position whose voice is named `name`.
pub proof fn lemma_voice_position(voices: Seq<VoiceView>, name: Seq<char>)
    ensures
        0 <= voice_position(voices, name) <= voices.len(),
        voice_position(voices, name) < voices.len() ==> voices[voice_position(voices, name)].name
            == name,
        forall|j: int| 0 <= j < voice_position(voices, name) ==> (#[trigger] voices[j]).name != name,
    decreases voices.len(),
{
    if voices.len() == 0 || voices[0].name == name {
    } else {
        let rest = voices.drop_first();
        lemma_voice_position(rest, name);
        assert forall|j: int| 0 <= j < voice_position(voices, name) implies (
        #[trigger] voices[j]).name != name by {
            if j > 0 {
                assert(voices[j] == rest[j - 1]);
            }
        }
    }
}

/// The voice named `name`.
pub open spec fn find_voice(voices: Seq<VoiceView>, name: Seq<char>) -> Option<VoiceView> {
    let p = voice_position(voices, name);
    if p < voices.len() {
        Some(voices[p])
    } else {
        None
    }
}

/// An index is well formed: the default voice comes first, no name occurs
/// twice, every voice is well formed, and every voice but the default one
/// has a clip.
pub open spec fn index_wf(voices: Seq<VoiceView>) -> bool {
    &&& voices.len() > 0
    &&& voices[0].name == default_voice_name()
    &&& forall|k: int| 0 <= k < voices.len() ==> voice_wf(#[trigger] voices[k])
    &&& forall|k: int| 0 < k < voices.len() ==> (#[trigger] voices[k]).clips.len() > 0
    &&& forall|j: int, k: int|
        0 <= j < k < voices.len() ==> (#[trigger] voices[j]).name != (#[trigger] voices[k]).name
}

/// Whether the index takes a voice in: the default voice always, any other
/// only with a clip.
pub open spec fn accepts_voice(v: VoiceView) -> bool {
    v.name == default_voice_name() || v.clips.len() > 0
}

/// The voices once `v` has been handed in: it replaces the voice of its
/// name, or joins at the end; one that is not accepted changes nothing.
pub open spec fn insert_voice_spec(voices: Seq<VoiceView>, v: VoiceView) -> Seq<VoiceView> {
    let p = voice_position(voices, v.name);
    if !accepts_voice(v) {
        voices
    } else if p < voices.len() {
        voices.update(p, v)
    } else {
        voices.push(v)
    }
}

/// The voice that a lookup of `name` uses: the voice of that name, or the
/// default voice where the name is unknown.
pub open spec fn voice_or_default(voices: Seq<VoiceView>, name: Seq<char>) -> Option<VoiceView> {
    match find_voice(voices, name) {
        Some(v) => Some(v),
        None => find_voice(voices, default_voice_name()),
    }
}

/// The clip that a lookup resolves to: in the voice of that name, or in the
/// default voice where the name is unknown, the clip of the language, else
/// the English one, else the first; none where that voice has no clip.
pub open spec fn resolve_clip_spec(
    voices: Seq<VoiceView>,
    name: Seq<char>,
    language: Option<Seq<char>>,
) -> Option<ClipView> {
    match voice_or_default(voices, name) {
        Some(v) => pick_clip_spec(v, language),
        None => None,
    }
}

/// The path of an optional clip.
pub open spec fn clip_path(clip: Option<ClipView>) -> Option<Seq<char>> {
    match clip {
        Some(c) => Some(c.file_path),
        None => None,
    }
}

/// The voice clip index.
#[derive(Debug)]
pub struct VoiceClipIndex {
    default_voice: Voice,
    voices: Vec<Voice>,
}

/// The index under the name that callers of the cache know it by.
pub type VoiceCache = VoiceClipIndex;

impl View for VoiceClipIndex {
    type V = Seq<VoiceView>;

    closed spec fn view(&self) -> Seq<VoiceView> {
        seq![self.default_voice@] + voice_views(self.voices@)
    }
}

impl VoiceClipIndex {
    #[verifier::type_invariant]
    spec fn well_formed(self) -> bool {
        index_wf(self@)
    }

    /// An index that holds the default voice alone, without clips.
    pub fn new() -> (index: VoiceClipIndex)
        ensures
            index@ == seq![VoiceView { name: default_voice_name(), clips: Seq::empty() }],
            index_wf(index@),
    {
        let index = VoiceClipIndex { default_voice: Voice::new("default"), voices: Vec::new() };
        assert(index@ =~= seq![VoiceView { name: default_voice_name(), clips: Seq::empty() }]);
        index
    }

    /// Position among the other voices of the one named `name`, or their
    /// number.
    fn other_index(&self, name: &str) -> (r: usize)
        ensures
            r == voice_position(voice_views(self.voices@), name@),
            r <= self.voices.len(),
    {
        let ghost others = voice_views(self.voices@);
        let mut i: usize = 0;
        assert(others.skip(0) == others);
        while i < self.voices.len()
            invariant
                i <= self.voices.len(),
                others == voice_views(self.voices@),
                voice_position(others, name@) == i + voice_position(others.skip(i as int), name@),
            decreases self.voices.len() - i,
        {
            assert(others.skip(i as int)[0] == self.voices[i as int]@);
            if same_text(self.voices[i].name().as_str(), name) {
                return i;
            }
            assert(others.skip(i as int).drop_first() == others.skip(i + 1));
            i += 1;
        }
        i
    }

    /// The voice named `name`, if the index holds one.
    pub fn voice(&self, name: &str) -> (r: Option<&Voice>)
        ensures
            match r {
                Some(v) => Some(v@),
                None => None,
            } == find_voice(self@, name@),
            index_wf(self@),
    {
        proof {
            use_type_invariant(self);
        }
        if same_text(name, "default") {
            return Some(&self.default_voice);
        }
        let i = self.other_index(name);
        proof {
            assert(self@.drop_first() == voice_views(self.voices@));
            if i < self.voices.len() {
                assert(self@[i + 1] == self.voices[i as int]@);
            }
        }
        if i < self.voices.len() {
            Some(&self.voices[i])
        } else {
            None
        }
    }

    /// Hands a voice to the index. The default voice is always taken in,
    /// any other only if it has a clip; it replaces the voice of its name.
    /// Returns whether the voice was taken in.
    pub fn insert_voice(&mut self, voice: Voice) -> (inserted: bool)
        ensures
            inserted == accepts_voice(voice@),
            final(self)@ == insert_voice_spec(old(self)@, voice@),
            index_wf(final(self)@),
    {
        proof {
            use_type_invariant(&*self);
            use_type_invariant(&voice);
            lemma_insert_keeps_wf(self@, voice@);
            lemma_voice_position(self@, voice@.name);
        }
        let ghost before = self@;
        let ghost others = voice_views(self.voices@);
        assert(before.drop_first() == others);
        if same_text(voice.name().as_str(), "default") {
            self.default_voice = voice;
            assert(self@ =~= before.update(0, voice@));
            return true;
        }
        if !voice.has_clips() {
            return false;
        }
        let i = self.other_index(voice.name().as_str());
        let mut voices: Vec<Voice> = Vec::new();
        assert(voice_views(voices@) =~= Seq::<VoiceView>::empty());
        assert(seq![self.default_voice@] + Seq::<VoiceView>::empty() =~= seq![
            self.default_voice@,
        ]);
        std::mem::swap(&mut voices, &mut self.voices);
        if i < voices.len() {
            voices.set(i, voice);
            assert(seq![self.default_voice@] + voice_views(voices@) =~= before.update(
                i + 1,
                voice@,
            ));
        } else {
            voices.push(voice);
            assert(seq![self.default_voice@] + voice_views(voices@) =~= before.push(voice@));
        }
        std::mem::swap(&mut voices, &mut self.voices);
        true
    }

    /// The clip to use for a voice and a language: see `resolve_clip_spec`.
    pub fn resolve_clip(&self, voice_name: &str, language: Option<&str>) -> (r: Option<&VoiceClip>)
        ensures
            match r {
                Some(c) => Some(c@),
                None => None,
            } == resolve_clip_spec(
                self@,
                voice_name@,
                match language {
                    Some(l) => Some(l@),
                    None => None,
                },
            ),
            index_wf(self@),
    {
        let voice = match self.voice(voice_name) {
            Some(v) => v,
            None => {
                assert(find_voice(self@, default_voice_name()) == Some(self@[0]));
                &self.default_voice
            },
        };
        voice.pick_clip(language)
    }

    /// The path of the clip to use for `voice_name` speaking `language`.
    ///
    /// Looks in the voice of that name, or in the default voice where the
    /// name is unknown, for the clip of the language, then for the English
    /// one, then for any. `None` says that there is no clip to use.
    pub fn resolve(&self, voice_name: &str, language: &str) -> (r: Option<String>)
        ensures
            opt_text(r) == clip_path(resolve_clip_spec(self@, voice_name@, Some(language@))),
            index_wf(self@),
            r matches Some(p) ==> holds_path(self@, p@),
            r is None ==> self@[0].clips.len() == 0 && (find_voice(self@, voice_name@) is None
                || voice_name@ == default_voice_name()),
    {
        proof {
            use_type_invariant(self);
            law_resolve_finds_existing_clip(self@, voice_name@, Some(language@));
            law_known_voice_resolves(self@, voice_name@, Some(language@));
        }
        match self.resolve_clip(voice_name, Some(language)) {
            Some(clip) => Some(clip.file_path.clone()),
            None => None,
        }
    }
}

/// Some clip of some voice of the index lies at `path`.
pub open spec fn holds_path(voices: Seq<VoiceView>, path: Seq<char>) -> bool {
    exists|v: int, c: int|
        0 <= v < voices.len() && 0 <= c < voices[v].clips.len() && (
        #[trigger] voices[v].clips[c]).file_path == path
}

/// Handing a well-formed voice to a well-formed index leaves the index well
/// formed.
pub proof fn lemma_insert_keeps_wf(voices: Seq<VoiceView>, v: VoiceView)
    requires
        index_wf(voices),
        voice_wf(v),
    ensures
        index_wf(insert_voice_spec(voices, v)),
{
    lemma_voice_position(voices, v.name);
    let p = voice_position(voices, v.name);
    let after = insert_voice_spec(voices, v);
    if accepts_voice(v) {
        if v.name == default_voice_name() {
            assert(p == 0);
        }
        assert forall|j: int, k: int| 0 <= j < k < after.len() implies (#[trigger] after[j]).name
            != (#[trigger] after[k]).name by {
            if p < voices.len() {
                assert(after[j].name == voices[j].name);
                assert(after[k].name == voices[k].name);
            } else {
                if k < voices.len() {
                    assert(after[j] == voices[j] && after[k] == voices[k]);
                } else {
                    assert(after[j] == voices[j]);
                }
            }
        }
    }
}

/// A lookup never makes a path up: what it resolves to is a clip that some
/// voice of the index holds.
pub proof fn law_resolve_finds_existing_clip(
    voices: Seq<VoiceView>,
    name: Seq<char>,
    language: Option<Seq<char>>,
)
    ensures
        resolve_clip_spec(voices, name, language) matches Some(clip) ==> holds_path(
            voices,
            clip.file_path,
        ),
{
    lemma_voice_position(voices, name);
    lemma_voice_position(voices, default_voice_name());
    match voice_or_default(voices, name) {
        Some(v) => {
            let at = if find_voice(voices, name) is Some {
                voice_position(voices, name)
            } else {
                voice_position(voices, default_voice_name())
            };
            assert(voices[at] == v);
            if language is Some {
                lemma_clip_position(v.clips, language->0);
            }
            lemma_clip_position(v.clips, fallback_language());
            match pick_clip_spec(v, language) {
                Some(clip) => {
                    let c = choose|c: int| 0 <= c < v.clips.len() && v.clips[c] == clip;
                    assert(voices[at].clips[c].file_path == clip.file_path);
                },
                None => {},
            }
        },
        None => {},
    }
}

/// A lookup of a known voice comes back empty only for the default voice
/// without clips; a lookup that comes back empty at all shows that the
/// default voice has none.
pub proof fn law_known_voice_resolves(
    voices: Seq<VoiceView>,
    name: Seq<char>,
    language: Option<Seq<char>>,
)
    requires
        index_wf(voices),
    ensures
        resolve_clip_spec(voices, name, language) is None ==> voices[0].clips.len() == 0 && (
        find_voice(voices, name) is None || name == default_voice_name()),
{
    lemma_voice_position(voices, name);
    lemma_voice_position(voices, default_voice_name());
    assert(voice_position(voices, default_voice_name()) == 0);
}

/// The order of the fallbacks: the clip of the language where the voice has
/// one; where it has not, the English clip; where it has neither, its first
/// clip.
pub proof fn law_fallback_order(v: VoiceView, language: Seq<char>)
    ensures
        find_clip(v.clips, language) is Some ==> pick_clip_spec(v, Some(language)) == find_clip(
            v.clips,
            language,
        ),
        find_clip(v.clips, language) is None && find_clip(v.clips, fallback_language()) is Some
            ==> pick_clip_spec(v, Some(language)) == find_clip(v.clips, fallback_language()),
        find_clip(v.clips, language) is None && find_clip(v.clips, fallback_language()) is None
            && v.clips.len() > 0 ==> pick_clip_spec(v, Some(language)) == Some(v.clips[0]),
        v.clips.len() == 0 ==> pick_clip_spec(v, Some(language)) is None,
{
    lemma_clip_position(v.clips, language);
    lemma_clip_position(v.clips, fallback_language());
}

/// The extension that marks a file as a clip.
pub open spec fn clip_extension() -> Seq<char> {
    "wav"@
}

/// The language that a file name stands for: a clip is named by its
/// language code, a dot, and the clip extension. The extension is what
/// follows the last dot, and a dot at the very start of the name begins no
/// extension.
pub open spec fn clip_language_spec(file_name: Seq<char>) -> Option<Seq<char>> {
    let dot = last_index(file_name, '.');
    if dot > 0 && file_name.skip(dot + 1) == clip_extension() {
        Some(file_name.take(dot))
    } else {
        None
    }
}

/// The language that a file name stands for, if it names a clip.
pub fn clip_language(file_name: &str) -> (r: Option<String>)
    ensures
        opt_text(r) == clip_language_spec(file_name@),
{
    let chars = to_chars(file_name);
    let n = chars.len();
    let end = behind_last(&chars, '.');
    if end <= 1 {
        return None;
    }
    let dot: usize = end - 1;
    assert(chars@.skip(dot + 1) == chars@.subrange(end as int, n as int));
    assert(chars@.take(dot as int) == chars@.subrange(0, dot as int));
    let extension = substring(&chars, end, n);
    if same_text(extension.as_str(), "wav") {
        Some(substring(&chars, 0, dot))
    } else {
        None
    }
}

/// What a scan of a voice directory found of one entry in it.
#[derive(Debug)]
pub struct ScannedFile {
    /// The name of the entry.
    pub file_name: String,
    /// The path of the entry.
    pub path: String,
    /// Whether the entry is a regular file.
    pub is_file: bool,
}

/// What a scan of the clip directory found of one entry in it.
#[derive(Debug)]
pub struct ScannedDir {
    /// The name of the entry: for a directory, the name of a voice.
    pub name: String,
    /// Whether the entry is a directory.
    pub is_dir: bool,
    /// The entries of the directory.
    pub files: Vec<ScannedFile>,
}

/// The voice that the first `count` files of a scanned directory make:
/// each regular file that names a clip gives the voice its clip in that
/// language, a later one replacing an earlier one.
pub open spec fn scanned_voice(dir: ScannedDir, count: int) -> VoiceView
    decreases count,
{
    if count <= 0 {
        VoiceView { name: dir.name@, clips: Seq::empty() }
    } else {
        let earlier = scanned_voice(dir, count - 1);
        let file = dir.files@[count - 1];
        match clip_language_spec(file.file_name@) {
            Some(language) => if file.is_file {
                insert_clip_spec(earlier, language, file.path@)
            } else {
                earlier
            },
            None => earlier,
        }
    }
}

/// The index that the first `count` entries of a scan make: the default
/// voice without clips, then each directory that holds a clip, as a voice.
pub open spec fn scanned_index(dirs: Seq<ScannedDir>, count: int) -> Seq<VoiceView>
    decreases count,
{
    if count <= 0 {
        seq![VoiceView { name: default_voice_name(), clips: Seq::empty() }]
    } else {
        let earlier = scanned_index(dirs, count - 1);
        let dir = dirs[count - 1];
        let voice = scanned_voice(dir, dir.files@.len() as int);
        if dir.is_dir && voice.clips.len() > 0 {
            insert_voice_spec(earlier, voice)
        } else {
            earlier
        }
    }
}

/// The clip is what the scan found in this file of this directory: the
/// directory names the voice, the file is a regular file whose name gives
/// the language, and the clip lies at the path of the file.
pub open spec fn clip_of_file(dir: ScannedDir, file: ScannedFile, clip: ClipView) -> bool {
    &&& dir.is_dir
    &&& file.is_file
    &&& clip.voice_name == dir.name@
    &&& clip_language_spec(file.file_name@) == Some(clip.language)
    &&& clip.file_path == file.path@
}

/// The voice is the one that a scanned directory makes.
pub open spec fn voice_of_scan(dirs: Seq<ScannedDir>, d: int, v: VoiceView) -> bool {
    0 <= d < dirs.len() && dirs[d].is_dir && v == scanned_voice(dirs[d], dirs[d].files@.len() as int)
}

/// Every clip of the voice that a directory makes was found in a file of
/// that directory.
proof fn lemma_scanned_voice_clips(dir: ScannedDir, count: int)
    requires
        0 <= count <= dir.files@.len(),
    ensures
        scanned_voice(dir, count).name == dir.name@,
        forall|c: int|
            0 <= c < scanned_voice(dir, count).clips.len() ==> (#[trigger] scanned_voice(
                dir,
                count,
            ).clips[c]).voice_name == dir.name@ && exists|f: int|
                0 <= f < count && scanned_voice(dir, count).clips[c].language
                    == clip_language_spec((#[trigger] dir.files@[f]).file_name@)->0
                    && clip_language_spec(dir.files@[f].file_name@) is Some && dir.files@[f].is_file
                    && dir.files@[f].path@ == scanned_voice(dir, count).clips[c].file_path,
    decreases count,
{
    if count > 0 {
        lemma_scanned_voice_clips(dir, count - 1);
        let earlier = scanned_voice(dir, count - 1);
        let now = scanned_voice(dir, count);
        let file = dir.files@[count - 1];
        lemma_clip_position(earlier.clips, clip_language_spec(file.file_name@)->0);
        assert forall|c: int| 0 <= c < now.clips.len() implies (#[trigger] now.clips[c]).voice_name
            == dir.name@ && exists|f: int|
            0 <= f < count && now.clips[c].language == clip_language_spec(
                (#[trigger] dir.files@[f]).file_name@,
            )->0 && clip_language_spec(dir.files@[f].file_name@) is Some && dir.files@[f].is_file
                && dir.files@[f].path@ == now.clips[c].file_path by {
            if c < earlier.clips.len() && now.clips[c] == earlier.clips[c] {
                let f = choose|f: int|
                    0 <= f < count - 1 && earlier.clips[c].language == clip_language_spec(
                        (#[trigger] dir.files@[f]).file_name@,
                    )->0 && clip_language_spec(dir.files@[f].file_name@) is Some
                        && dir.files@[f].is_file && dir.files@[f].path@
                        == earlier.clips[c].file_path;
                assert(0 <= f < count);
            } else {
                assert(dir.files@[count - 1] == file);
            }
        }
    }
}

/// Every voice of the index that a scan makes is the default voice without
/// clips or the voice of a scanned directory.
proof fn lemma_scanned_index_voices(dirs: Seq<ScannedDir>, count: int)
    requires
        0 <= count <= dirs.len(),
    ensures
        forall|v: int|
            0 <= v < scanned_index(dirs, count).len() ==> (#[trigger] scanned_index(
                dirs,
                count,
            )[v]).clips.len() == 0 || exists|d: int|
                d < count && #[trigger] voice_of_scan(dirs, d, scanned_index(dirs, count)[v]),
    decreases count,
{
    if count > 0 {
        lemma_scanned_index_voices(dirs, count - 1);
        let earlier = scanned_index(dirs, count - 1);
        let now = scanned_index(dirs, count);
        let dir = dirs[count - 1];
        let voice = scanned_voice(dir, dir.files@.len() as int);
        lemma_voice_position(earlier, voice.name);
        assert forall|v: int| 0 <= v < now.len() implies (#[trigger] now[v]).clips.len() == 0
            || exists|d: int| d < count && #[trigger] voice_of_scan(dirs, d, now[v]) by {
            if v < earlier.len() && now[v] == earlier[v] {
                if earlier[v].clips.len() > 0 {
                    let d = choose|d: int|
                        d < count - 1 && #[trigger] voice_of_scan(dirs, d, earlier[v]);
                    assert(voice_of_scan(dirs, d, now[v]));
                }
            } else {
                assert(voice_of_scan(dirs, count - 1, now[v]));
            }
        }
    }
}

/// The index that a scan makes holds what the scan found and nothing else:
/// every clip of every voice of it is a regular file of a scanned directory,
/// named by that directory and by the language of the file's name.
pub proof fn law_index_holds_what_was_scanned(dirs: Seq<ScannedDir>, v: int, c: int)
    requires
        0 <= v < scanned_index(dirs, dirs.len() as int).len(),
        0 <= c < scanned_index(dirs, dirs.len() as int)[v].clips.len(),
    ensures
        exists|d: int, f: int|
            0 <= d < dirs.len() && 0 <= f < dirs[d].files@.len() && #[trigger] clip_of_file(
                dirs[d],
                dirs[d].files@[f],
                scanned_index(dirs, dirs.len() as int)[v].clips[c],
            ),
{
    let index = scanned_index(dirs, dirs.len() as int);
    lemma_scanned_index_voices(dirs, dirs.len() as int);
    let voice = index[v];
    let d = choose|d: int| d < dirs.len() && #[trigger] voice_of_scan(dirs, d, voice);
    let dir = dirs[d];
    lemma_scanned_voice_clips(dir, dir.files@.len() as int);
    let clip = voice.clips[c];
    let f = choose|f: int|
        0 <= f < dir.files@.len() && clip.language == clip_language_spec(
            (#[trigger] dir.files@[f]).file_name@,
        )->0 && clip_language_spec(dir.files@[f].file_name@) is Some && dir.files@[f].is_file
            && dir.files@[f].path@ == clip.file_path;
    assert(clip_of_file(dirs[d], dirs[d].files@[f], clip));
}

/// Handing a voice to an index keeps every name that the index knew.
proof fn lemma_insert_keeps_names(voices: Seq<VoiceView>, v: VoiceView, name: Seq<char>)
    requires
        find_voice(voices, name) is Some || (accepts_voice(v) && v.name == name),
    ensures
        find_voice(insert_voice_spec(voices, v), name) is Some,
{
    let after = insert_voice_spec(voices, v);
    lemma_voice_position(voices, name);
    lemma_voice_position(voices, v.name);
    lemma_voice_position(after, name);
    let at = if find_voice(voices, name) is Some {
        voice_position(voices, name)
    } else if voice_position(voices, v.name) < voices.len() {
        voice_position(voices, v.name)
    } else {
        voices.len() as int
    };
    assert(0 <= at < after.len());
    assert(after[at].name == name);
}

/// A directory that the scan found to hold a clip is a voice of the index:
/// a lookup of its name finds a voice.
pub proof fn law_scanned_voices_are_indexed(dirs: Seq<ScannedDir>, count: int, d: int)
    requires
        0 <= d < count <= dirs.len(),
        dirs[d].is_dir,
        scanned_voice(dirs[d], dirs[d].files@.len() as int).clips.len() > 0,
    ensures
        find_voice(scanned_index(dirs, count), dirs[d].name@) is Some,
    decreases count,
{
    let dir = dirs[count - 1];
    let voice = scanned_voice(dir, dir.files@.len() as int);
    lemma_scanned_voice_clips(dir, dir.files@.len() as int);
    lemma_scanned_voice_clips(dirs[d], dirs[d].files@.len() as int);
    if d < count - 1 {
        law_scanned_voices_are_indexed(dirs, count - 1, d);
        if dir.is_dir && voice.clips.len() > 0 {
            lemma_insert_keeps_names(scanned_index(dirs, count - 1), voice, dirs[d].name@);
        }
    } else {
        lemma_insert_keeps_names(scanned_index(dirs, count - 1), voice, dirs[d].name@);
    }
}

/// The voice of one scanned directory.
fn voice_of_dir(dir: &ScannedDir) -> (voice: Voice)
    ensures
        voice@ == scanned_voice(*dir, dir.files@.len() as int),
{
    let mut voice = Voice::new(dir.name.as_str());
    let mut i: usize = 0;
    while i < dir.files.len()
        invariant
            i <= dir.files.len(),
            voice@ == scanned_voice(*dir, i as int),
        decreases dir.files.len() - i,
    {
        let file = &dir.files[i];
        if file.is_file {
            match clip_language(file.file_name.as_str()) {
                Some(language) => {
                    voice.insert_clip(language.as_str(), file.path.as_str());
                },
                None => {},
            }
        }
        i += 1;
    }
    voice
}

/// Builds the index from a scan of the clip directory.
///
/// Every scanned directory that holds at least one clip becomes a voice of
/// its name; entries that are no directories, and files that name no clip,
/// are passed over. The default voice is there whatever the scan found.
pub fn init_voice_cache(entries: &Vec<ScannedDir>) -> (index: VoiceCache)
    ensures
        index@ == scanned_index(entries@, entries.len() as int),
        index_wf(index@),
{
    let mut index = VoiceClipIndex::new();
    let mut i: usize = 0;
    while i < entries.len()
        invariant
            i <= entries.len(),
            index@ == scanned_index(entries@, i as int),
            index_wf(index@),
        decreases entries.len() - i,
    {
        let dir = &entries[i];
        if dir.is_dir {
            let voice = voice_of_dir(dir);
            if voice.has_clips() {
                index.insert_voice(voice);
            }
        }
        i += 1;
    }
    index
}

/// The best clip for a voice and the language detected in the text, if any:
/// the path that `VoiceClipIndex::resolve_clip` resolves to.
pub fn get_voice_clip_path(
    voice_cache: &VoiceCache,
    voice_name: &str,
    detected_language: Option<&str>,
) -> (r: Option<String>)
    ensures
        opt_text(r) == clip_path(
            resolve_clip_spec(
                voice_cache@,
                voice_name@,
                match detected_language {
                    Some(l) => Some(l@),
                    None => None,
                },
            ),
        ),
        r matches Some(p) ==> holds_path(voice_cache@, p@),
{
    proof {
        law_resolve_finds_existing_clip(
            voice_cache@,
            voice_name@,
            match detected_language {
                Some(l) => Some(l@),
                None => None,
            },
        );
    }
    match voice_cache.resolve_clip(voice_name, detected_language) {
        Some(clip) => Some(clip.file_path.clone()),
        None => None,
    }
}

/// The languages of a list of clips, in order.
pub open spec fn languages_of(clips: Seq<ClipView>) -> Seq<Seq<char>> {
    Seq::new(clips.len(), |k: int| clips[k].language)
}

impl Voice {
    /// The languages in which the voice has a clip.
    pub fn languages(&self) -> (r: Vec<String>)
        ensures
            texts_of(r@) == languages_of(self@.clips),
    {
        let mut r: Vec<String> = Vec::new();
        let mut i: usize = 0;
        while i < self.clips.len()
            invariant
                i <= self.clips.len(),
                r.len() == i,
                texts_of(r@) == languages_of(self@.clips).take(i as int),
            decreases self.clips.len() - i,
        {
            assert(self@.clips[i as int] == self.clips[i as int]@);
            r.push(self.clips[i].language.clone());
            i += 1;
            assert(texts_of(r@) =~= languages_of(self@.clips).take(i as int));
        }
        assert(languages_of(self@.clips).take(i as int) == languages_of(self@.clips));
        r
    }
}

/// The voices of the index, each with the languages of its clips.
pub fn get_available_voices(voice_cache: &VoiceCache) -> (r: Vec<(String, Vec<String>)>)
    ensures
        r.len() == voice_cache@.len(),
        forall|k: int|
            0 <= k < r.len() ==> (#[trigger] r[k]).0@ == voice_cache@[k].name && texts_of(r[k].1@)
                == languages_of(voice_cache@[k].clips),
{
    let mut r: Vec<(String, Vec<String>)> = Vec::new();
    r.push((voice_cache.default_voice.name().clone(), voice_cache.default_voice.languages()));
    let mut i: usize = 0;
    while i < voice_cache.voices.len()
        invariant
            i <= voice_cache.voices.len(),
            r.len() == i + 1,
            forall|k: int|
                0 <= k < r.len() ==> (#[trigger] r[k]).0@ == voice_cache@[k].name && texts_of(
                    r[k].1@,
                ) == languages_of(voice_cache@[k].clips),
        decreases voice_cache.voices.len() - i,
    {
        let voice = &voice_cache.voices[i];
        assert(voice_cache@[i + 1] == voice@);
        r.push((voice.name().clone(), voice.languages()));
        i += 1;
    }
    r
}

} // verus!
