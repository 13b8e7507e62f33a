//! The synthesis backends: which one serves a request, what it needs from
//! the configuration, and how its answer is read.
//!
//! The network calls themselves are made by the caller. This module decides
//! what is to be sent where, and what an answer means.

use crate::base64::{decode_base64, decode_spec, encode_spec};
use crate::chunker::{split_spec, split_text_for_xtts, XTTS_CHAR_LIMIT};
use crate::chunker_laws::law_chunks_are_trimmed;
use crate::language::{detect_language, detect_language_spec, language_or_default};
use crate::pipeline::{AudioFraming, SynthesisError};
use crate::text::{
    behind_last, last_index, opt_str, opt_text, substring, texts_of, to_chars,
};
use crate::voice_index::{fallback_language, resolve_clip_spec, VoiceClipIndex};
use vstd::prelude::*;
use vstd::string::StringExecFns;

verus! {

/// The kinds of synthesis backend.
#[allow(non_camel_case_types)]
#[derive(Debug, Clone, Copy, PartialEq, Eq, Structural, Hash)]
pub enum TTSMode {
    gTTS,
    Polly,
    eSpeak,
    gCloud,
    OpenAI,
    XTTS,
}

/// The kinds of synthesis backend, for callers that speak of backend kinds
/// rather than modes.
pub type BackendKind = TTSMode;

/// The request and response contract that a kind of backend follows.
#[derive(Debug, Clone, Copy, PartialEq, Eq, Structural)]
pub enum BackendShape {
    /// One request per chunk to the shared synthesis service.
    RemoteJson,
    /// A request that may carry a style instruction.
    InstructionAware,
    /// A request that names a local reference sample of the voice.
    SampleCloning,
}

/// The contract that each kind of backend follows.
pub open spec fn backend_shape_spec(mode: TTSMode) -> BackendShape {
    match mode {
        TTSMode::OpenAI => BackendShape::InstructionAware,
        TTSMode::XTTS => BackendShape::SampleCloning,
        _ => BackendShape::RemoteJson,
    }
}

/// The contract that a kind of backend follows.
pub fn backend_shape(mode: TTSMode) -> (shape: BackendShape)
    ensures
        shape == backend_shape_spec(mode),
{
    match mode {
        TTSMode::OpenAI => BackendShape::InstructionAware,
        TTSMode::XTTS => BackendShape::SampleCloning,
        TTSMode::gTTS | TTSMode::Polly | TTSMode::eSpeak | TTSMode::gCloud => {
            BackendShape::RemoteJson
        },
    }
}

/// The analytics event that records a request served by `mode`.
pub open spec fn analytics_event_spec(mode: TTSMode) -> Seq<char> {
    match mode {
        TTSMode::gTTS => "gTTS_tts"@,
        TTSMode::eSpeak => "eSpeak_tts"@,
        TTSMode::gCloud => "gCloud_tts"@,
        TTSMode::Polly => "Polly_tts"@,
        TTSMode::OpenAI => "OpenAI_tts"@,
        TTSMode::XTTS => "XTTS_tts"@,
    }
}

/// The analytics event that records a request served by `mode`.
pub fn analytics_event(mode: TTSMode) -> (event: &'static str)
    ensures
        event@ == analytics_event_spec(mode),
{
    match mode {
        TTSMode::gTTS => "gTTS_tts",
        TTSMode::eSpeak => "eSpeak_tts",
        TTSMode::gCloud => "gCloud_tts",
        TTSMode::Polly => "Polly_tts",
        TTSMode::OpenAI => "OpenAI_tts",
        TTSMode::XTTS => "XTTS_tts",
    }
}

/// The kinds of backend, each once.
pub open spec fn all_modes_spec() -> Seq<TTSMode> {
    seq![
        TTSMode::gTTS,
        TTSMode::Polly,
        TTSMode::eSpeak,
        TTSMode::gCloud,
        TTSMode::OpenAI,
        TTSMode::XTTS,
    ]
}

/// The kinds of backend, each once.
pub fn all_modes() -> (modes: Vec<TTSMode>)
    ensures
        modes@ == all_modes_spec(),
        forall|mode: TTSMode| modes@.contains(mode),
{
    let mut modes: Vec<TTSMode> = Vec::new();
    modes.push(TTSMode::gTTS);
    modes.push(TTSMode::Polly);
    modes.push(TTSMode::eSpeak);
    modes.push(TTSMode::gCloud);
    modes.push(TTSMode::OpenAI);
    modes.push(TTSMode::XTTS);
    assert(modes@ =~= all_modes_spec());
    assert forall|mode: TTSMode| modes@.contains(mode) by {
        let at: int = match mode {
            TTSMode::gTTS => 0,
            TTSMode::Polly => 1,
            TTSMode::eSpeak => 2,
            TTSMode::gCloud => 3,
            TTSMode::OpenAI => 4,
            TTSMode::XTTS => 5,
        };
        assert(modes@[at] == mode);
    }
    modes
}

/// The texts of a list of events.
pub open spec fn event_texts(events: Seq<&'static str>) -> Seq<Seq<char>> {
    Seq::new(events.len(), |k: int| events[k]@)
}

/// The analytics events that count spoken messages: the event of every
/// kind of backend, so that the statistics leave no backend out.
pub fn analytics_events() -> (events: Vec<&'static str>)
    ensures
        events@.len() == all_modes_spec().len(),
        forall|k: int|
            0 <= k < events@.len() ==> (#[trigger] events@[k])@ == analytics_event_spec(
                all_modes_spec()[k],
            ),
        forall|mode: TTSMode|
            event_texts(events@).contains(#[trigger] analytics_event_spec(mode)),
{
    let modes = all_modes();
    let mut events: Vec<&'static str> = Vec::new();
    let mut k: usize = 0;
    while k < modes.len()
        invariant
            k <= modes.len(),
            modes@ == all_modes_spec(),
            events@.len() == k,
            forall|j: int|
                0 <= j < k ==> (#[trigger] events@[j])@ == analytics_event_spec(
                    all_modes_spec()[j],
                ),
        decreases modes.len() - k,
    {
        events.push(analytics_event(modes[k]));
        k += 1;
    }
    assert forall|mode: TTSMode|
        event_texts(events@).contains(#[trigger] analytics_event_spec(mode)) by {
        let at = choose|at: int| 0 <= at < modes@.len() && modes@[at] == mode;
        assert(event_texts(events@)[at] == analytics_event_spec(mode));
    }
    events
}

/// Names every kind of backend once. A new kind stops this from compiling
/// until it is named here, which is the moment to give it its analytics
/// event and to add that event to the statistics query.
pub fn remember_to_update_analytics_query() {
    match TTSMode::gTTS {
        TTSMode::gTTS => (),
        TTSMode::Polly => (),
        TTSMode::eSpeak => (),
        TTSMode::gCloud => (),
        TTSMode::OpenAI => (),
        TTSMode::XTTS => (),
    }
}

/// The name of a kind of backend in requests to the synthesis service.
pub open spec fn mode_name_spec(mode: TTSMode) -> Seq<char> {
    match mode {
        TTSMode::gTTS => "gtts"@,
        TTSMode::eSpeak => "espeak"@,
        TTSMode::gCloud => "gcloud"@,
        TTSMode::Polly => "polly"@,
        TTSMode::OpenAI => "openai"@,
        TTSMode::XTTS => "xtts"@,
    }
}

/// The name of a kind of backend in requests to the synthesis service.
pub fn mode_name(mode: TTSMode) -> (name: &'static str)
    ensures
        name@ == mode_name_spec(mode),
{
    match mode {
        TTSMode::gTTS => "gtts",
        TTSMode::eSpeak => "espeak",
        TTSMode::gCloud => "gcloud",
        TTSMode::Polly => "polly",
        TTSMode::OpenAI => "openai",
        TTSMode::XTTS => "xtts",
    }
}

/// The style instruction in force: the one given with the message, else the
/// one stored for the user or the guild, else none.
pub open spec fn effective_instruction_spec(
    temporary: Option<Seq<char>>,
    persistent: Option<Seq<char>>,
) -> Option<Seq<char>> {
    match temporary {
        Some(t) => Some(t),
        None => persistent,
    }
}

/// The style instruction in force for a message.
pub fn effective_instruction(temporary: Option<&str>, persistent: Option<&str>) -> (r: Option<
    String,
>)
    ensures
        opt_text(r) == effective_instruction_spec(opt_str(temporary), opt_str(persistent)),
{
    match temporary {
        Some(t) => Some(t.to_owned()),
        None => match persistent {
            Some(p) => Some(p.to_owned()),
            None => None,
        },
    }
}

/// How a service wraps the audio that it answers with. Which of the two a
/// service uses is a matter of its configuration; it is not guessed from
/// the answer.
#[derive(Debug, Clone, Copy, PartialEq, Eq, Structural)]
pub enum ResponseShape {
    /// The body is the audio.
    RawAudio,
    /// The body is a JSON envelope that holds the audio in base64.
    JsonBase64,
}

/// What the configuration says of the backends.
#[derive(Debug)]
pub struct BackendConfig {
    /// The address of the shared synthesis service.
    pub tts_service: String,
    /// The key that the shared synthesis service asks for, if it asks for one.
    pub tts_service_auth_key: Option<String>,
    /// The key of the instruction-aware backend; without it that backend is
    /// switched off.
    pub openai_api_key: Option<String>,
    /// The address of the sample-cloning service; without it that backend is
    /// switched off.
    pub xtts_service: Option<String>,
    /// How the sample-cloning service wraps its audio.
    pub xtts_response: ResponseShape,
    /// How the audio of the sample-cloning service is framed, which decides
    /// how the segments of a request are joined into one buffer.
    pub xtts_framing: AudioFraming,
}

/// Where a request goes.
#[derive(Debug, PartialEq, Eq)]
pub enum Dispatch {
    /// The backend is not configured: the request yields no audio, and that
    /// is no error.
    Disabled,
    /// To the shared synthesis service.
    Remote { service: String, auth_key: Option<String> },
    /// To the instruction-aware backend, with the instruction in force.
    InstructionAware { api_key: String, instruction: Option<String> },
    /// To the sample-cloning service, which answers in the given shape with
    /// audio in the given framing.
    SampleCloning { service: String, response: ResponseShape, framing: AudioFraming },
}

/// Where a request goes, as plain text.
pub enum DispatchView {
    Disabled,
    Remote { service: Seq<char>, auth_key: Option<Seq<char>> },
    InstructionAware { api_key: Seq<char>, instruction: Option<Seq<char>> },
    SampleCloning { service: Seq<char>, response: ResponseShape, framing: AudioFraming },
}

impl View for Dispatch {
    type V = DispatchView;

    open spec fn view(&self) -> DispatchView {
        match *self {
            Dispatch::Disabled => DispatchView::Disabled,
            Dispatch::Remote { service, auth_key } => DispatchView::Remote {
                service: service@,
                auth_key: opt_text(auth_key),
            },
            Dispatch::InstructionAware { api_key, instruction } => DispatchView::InstructionAware {
                api_key: api_key@,
                instruction: opt_text(instruction),
            },
            Dispatch::SampleCloning { service, response, framing } => {
                DispatchView::SampleCloning { service: service@, response, framing }
            },
        }
    }
}

/// Where a request of kind `mode` goes under `config`.
pub open spec fn dispatch_spec(
    mode: TTSMode,
    config: BackendConfig,
    temporary: Option<Seq<char>>,
    persistent: Option<Seq<char>>,
) -> DispatchView {
    match backend_shape_spec(mode) {
        BackendShape::RemoteJson => DispatchView::Remote {
            service: config.tts_service@,
            auth_key: opt_text(config.tts_service_auth_key),
        },
        BackendShape::InstructionAware => match config.openai_api_key {
            Some(key) => DispatchView::InstructionAware {
                api_key: key@,
                instruction: effective_instruction_spec(temporary, persistent),
            },
            None => DispatchView::Disabled,
        },
        BackendShape::SampleCloning => match config.xtts_service {
            Some(service) => DispatchView::SampleCloning {
                service: service@,
                response: config.xtts_response,
                framing: config.xtts_framing,
            },
            None => DispatchView::Disabled,
        },
    }
}

/// Decides where a request goes: to the backend of its kind, with what
/// that backend needs from the configuration, or nowhere where the
/// configuration lacks it.
pub fn dispatch(
    mode: TTSMode,
    config: &BackendConfig,
    temporary_instruction: Option<&str>,
    persistent_instruction: Option<&str>,
) -> (d: Dispatch)
    ensures
        d@ == dispatch_spec(
            mode,
            *config,
            opt_str(temporary_instruction),
            opt_str(persistent_instruction),
        ),
{
    match backend_shape(mode) {
        BackendShape::RemoteJson => Dispatch::Remote {
            service: config.tts_service.clone(),
            auth_key: match &config.tts_service_auth_key {
                Some(key) => Some(key.clone()),
                None => None,
            },
        },
        BackendShape::InstructionAware => match &config.openai_api_key {
            Some(key) => Dispatch::InstructionAware {
                api_key: key.clone(),
                instruction: effective_instruction(temporary_instruction, persistent_instruction),
            },
            None => Dispatch::Disabled,
        },
        BackendShape::SampleCloning => match &config.xtts_service {
            Some(service) => Dispatch::SampleCloning {
                service: service.clone(),
                response: config.xtts_response,
                framing: config.xtts_framing,
            },
            None => Dispatch::Disabled,
        },
    }
}

/// The clip file that is named where a path names none.
pub open spec fn fallback_clip_file() -> Seq<char> {
    "en.wav"@
}

/// The file name of a clip path: what follows its last `/`, or the English
/// clip's name where nothing follows.
pub open spec fn file_name_spec(path: Seq<char>) -> Seq<char> {
    let tail = path.skip(last_index(path, '/') + 1);
    if tail.len() > 0 {
        tail
    } else {
        fallback_clip_file()
    }
}

/// How the sample-cloning service is told which sample to use: the name of
/// the requested voice, a `/`, and the file name of the clip.
pub open spec fn speaker_wav_spec(voice_name: Seq<char>, clip_path: Seq<char>) -> Seq<char> {
    voice_name + seq!['/'] + file_name_spec(clip_path)
}

/// The reference to a clip that is sent to the sample-cloning service.
pub fn speaker_wav(voice_name: &str, clip_path: &str) -> (r: String)
    ensures
        r@ == speaker_wav_spec(voice_name@, clip_path@),
{
    let chars = to_chars(clip_path);
    let from = behind_last(&chars, '/');
    let mut r = voice_name.to_owned();
    r.push('/');
    assert(chars@.skip(from as int) == chars@.subrange(from as int, chars.len() as int));
    if from < chars.len() {
        let name = substring(&chars, from, chars.len());
        r.append(name.as_str());
    } else {
        r.append("en.wav");
    }
    r
}

/// What is sent to the sample-cloning service for one chunk.
#[derive(Debug, PartialEq, Eq)]
pub struct XttsRequest {
    /// The text to speak.
    pub text: String,
    /// The reference to the sample of the voice.
    pub speaker_wav: String,
    /// The language to speak in.
    pub language: String,
}

/// The path of the sample-cloning service that synthesises a chunk.
pub fn xtts_synthesis_path() -> (path: &'static str)
    ensures
        path@ == "/tts_to_audio/"@,
{
    "/tts_to_audio/"
}

/// The chunks that hold anything, in order. A text of nothing but
/// whitespace that fits the budget is one empty chunk; there is nothing in
/// it to synthesise.
pub open spec fn without_empty(chunks: Seq<Seq<char>>) -> Seq<Seq<char>>
    decreases chunks.len(),
{
    if chunks.len() == 0 {
        chunks
    } else if chunks.last().len() == 0 {
        without_empty(chunks.drop_last())
    } else {
        without_empty(chunks.drop_last()).push(chunks.last())
    }
}

/// Where no chunk is empty, none is dropped.
pub proof fn lemma_without_empty_keeps_all(chunks: Seq<Seq<char>>)
    requires
        forall|k: int| 0 <= k < chunks.len() ==> (#[trigger] chunks[k]).len() > 0,
    ensures
        without_empty(chunks) == chunks,
    decreases chunks.len(),
{
    if chunks.len() > 0 {
        let earlier = chunks.drop_last();
        assert forall|k: int| 0 <= k < earlier.len() implies (#[trigger] earlier[k]).len() > 0 by {
            assert(earlier[k] == chunks[k]);
        }
        lemma_without_empty_keeps_all(earlier);
        assert(earlier.push(chunks.last()) =~= chunks);
    }
}

/// The chunks of a text that are to be synthesised: its chunks under the
/// budget of the sample-cloning backend, without the empty one of a blank
/// text. No chunk of a text over the budget is dropped.
pub fn chunks_to_speak(text: &str) -> (chunks: Vec<String>)
    ensures
        texts_of(chunks@) == without_empty(split_spec(text@, XTTS_CHAR_LIMIT as int)),
        text@.len() > XTTS_CHAR_LIMIT ==> texts_of(chunks@) == split_spec(
            text@,
            XTTS_CHAR_LIMIT as int,
        ),
        forall|k: int| 0 <= k < chunks.len() ==> 0 < (#[trigger] chunks[k])@.len()
            <= XTTS_CHAR_LIMIT,
{
    let all = split_text_for_xtts(text);
    let ghost whole = texts_of(all@);
    proof {
        if text@.len() > XTTS_CHAR_LIMIT {
            law_chunks_are_trimmed(text@, XTTS_CHAR_LIMIT as int);
            lemma_without_empty_keeps_all(whole);
        }
    }
    let mut chunks: Vec<String> = Vec::new();
    let mut k: usize = 0;
    assert(whole.take(0) =~= Seq::<Seq<char>>::empty());
    assert(texts_of(chunks@) =~= Seq::<Seq<char>>::empty());
    while k < all.len()
        invariant
            k <= all.len(),
            whole == texts_of(all@),
            texts_of(chunks@) == without_empty(whole.take(k as int)),
            forall|j: int| 0 <= j < all.len() ==> (#[trigger] all[j])@.len() <= XTTS_CHAR_LIMIT,
            forall|j: int| 0 <= j < chunks.len() ==> 0 < (#[trigger] chunks[j])@.len()
                <= XTTS_CHAR_LIMIT,
        decreases all.len() - k,
    {
        let ghost before = texts_of(chunks@);
        proof {
            assert(whole.take(k + 1).drop_last() =~= whole.take(k as int));
            assert(whole.take(k + 1).last() == all[k as int]@);
        }
        if !all[k].as_str().is_empty() {
            chunks.push(all[k].clone());
            assert(texts_of(chunks@) =~= before.push(all[k as int]@));
        }
        k += 1;
    }
    assert(whole.take(k as int) =~= whole);
    chunks
}

/// What the sample-cloning backend is to do for one request.
#[derive(Debug, PartialEq, Eq)]
pub struct XttsPlan {
    /// The reference to the sample of the voice.
    pub speaker_wav: String,
    /// The language to speak in.
    pub language: String,
    /// The chunks to synthesise, in order.
    pub chunks: Vec<String>,
}

/// The plan for a request, as plain text.
pub struct XttsPlanView {
    pub speaker_wav: Seq<char>,
    pub language: Seq<char>,
    pub chunks: Seq<Seq<char>>,
}

impl View for XttsPlan {
    type V = XttsPlanView;

    open spec fn view(&self) -> XttsPlanView {
        XttsPlanView {
            speaker_wav: self.speaker_wav@,
            language: self.language@,
            chunks: texts_of(self.chunks@),
        }
    }
}

/// The plan for speaking `text` in the voice `voice_name`, given the
/// language detected in the text: none where the index resolves to no clip;
/// else the reference to the resolved clip, the detected language or English
/// where none was detected, and the chunks of the text that hold anything.
pub open spec fn plan_xtts_spec(
    voices: Seq<crate::voice_index::VoiceView>,
    text: Seq<char>,
    voice_name: Seq<char>,
    detected: Option<Seq<char>>,
) -> Option<XttsPlanView> {
    match resolve_clip_spec(voices, voice_name, detected) {
        Some(clip) => Some(
            XttsPlanView {
                speaker_wav: speaker_wav_spec(voice_name, clip.file_path),
                language: match detected {
                    Some(language) => language,
                    None => fallback_language(),
                },
                chunks: without_empty(split_spec(text, XTTS_CHAR_LIMIT as int)),
            },
        ),
        None => None,
    }
}

/// Plans a request to the sample-cloning backend for a text whose language
/// has been detected already. `None` says that there is no clip to use, and
/// that the request is to be skipped.
pub fn plan_xtts(
    index: &VoiceClipIndex,
    text: &str,
    voice_name: &str,
    detected: Option<String>,
) -> (plan: Option<XttsPlan>)
    ensures
        (match plan {
            Some(p) => Some(p@),
            None => None,
        }) == plan_xtts_spec(index@, text@, voice_name@, opt_text(detected)),
{
    let clip = match &detected {
        Some(language) => index.resolve_clip(voice_name, Some(language.as_str())),
        None => index.resolve_clip(voice_name, None),
    };
    match clip {
        Some(clip) => {
            let reference = speaker_wav(voice_name, clip.file_path.as_str());
            Some(
                XttsPlan {
                    speaker_wav: reference,
                    language: language_or_default(detected),
                    chunks: chunks_to_speak(text),
                },
            )
        },
        None => None,
    }
}

/// Plans a request to the sample-cloning backend: detects the language of
/// the text and plans for it.
pub fn plan_xtts_for_text(index: &VoiceClipIndex, text: &str, voice_name: &str) -> (plan: Option<
    XttsPlan,
>)
    ensures
        (match plan {
            Some(p) => Some(p@),
            None => None,
        }) == plan_xtts_spec(index@, text@, voice_name@, detect_language_spec(text@)),
{
    plan_xtts(index, text, voice_name, detect_language(text))
}

/// The request for chunk `k` of a plan.
pub fn xtts_request(plan: &XttsPlan, k: usize) -> (request: Option<XttsRequest>)
    ensures
        match request {
            Some(r) => k < plan.chunks@.len() && r.text@ == plan.chunks@[k as int]@
                && r.speaker_wav@ == plan.speaker_wav@ && r.language@ == plan.language@,
            None => k >= plan.chunks@.len(),
        },
{
    if k < plan.chunks.len() {
        Some(
            XttsRequest {
                text: plan.chunks[k].clone(),
                speaker_wav: plan.speaker_wav.clone(),
                language: plan.language.clone(),
            },
        )
    } else {
        None
    }
}

/// The announcement of who speaks: the user's name and ` said`.
pub fn xsaid_text(user_name: &str) -> (text: String)
    ensures
        text@ == user_name@ + " said"@,
{
    let mut text = user_name.to_owned();
    text.append(" said");
    text
}

/// The request that announces who speaks. It is made in English with the
/// English clip of the voice, and there is none where the index resolves to
/// no clip for that voice in English.
pub fn plan_xsaid(index: &VoiceClipIndex, voice_name: &str, user_name: &str) -> (request: Option<
    XttsRequest,
>)
    ensures
        match request {
            Some(r) => resolve_clip_spec(index@, voice_name@, Some(fallback_language())) is Some
                && r.text@ == user_name@ + " said"@ && r.speaker_wav@ == voice_name@ + "/en.wav"@
                && r.language@ == fallback_language(),
            None => resolve_clip_spec(index@, voice_name@, Some(fallback_language())) is None,
        },
{
    match index.resolve_clip(voice_name, Some("en")) {
        Some(_) => {
            let mut reference = voice_name.to_owned();
            reference.append("/en.wav");
            Some(
                XttsRequest {
                    text: xsaid_text(user_name),
                    speaker_wav: reference,
                    language: "en".to_owned(),
                },
            )
        },
        None => None,
    }
}

/// Whether a status is a success: 200 to 299.
pub open spec fn is_success_spec(status: u16) -> bool {
    200 <= status <= 299
}

/// Reads the answer of a backend: the body is the audio where the status is
/// a success, and every other status is a synthesis failure.
pub fn interpret_response(status: u16, body: Vec<u8>) -> (r: Result<Vec<u8>, SynthesisError>)
    ensures
        r == if is_success_spec(status) {
            Ok::<Vec<u8>, SynthesisError>(body)
        } else {
            Err::<Vec<u8>, SynthesisError>(SynthesisError::Status(status))
        },
{
    if 200 <= status && status <= 299 {
        Ok(body)
    } else {
        Err(SynthesisError::Status(status))
    }
}

/// What a service answered with, as the caller found it: the body itself,
/// or what an envelope held in its audio field, if the body was an envelope
/// and had one.
#[derive(Debug, PartialEq, Eq)]
pub enum BackendAnswer {
    /// The body, for a service that answers with the audio itself.
    Audio(Vec<u8>),
    /// The text of the audio field, for a service that answers with an
    /// envelope; `None` where the body could not be read as one.
    Envelope(Option<String>),
}

/// What an answer means: a status that is no success is a failure
/// whatever the body holds; a body is the audio; an envelope holds the audio
/// in base64, and one that cannot be read is a failure.
pub open spec fn read_answer_spec(status: u16, answer: BackendAnswer) -> Result<
    Seq<u8>,
    SynthesisError,
> {
    if !is_success_spec(status) {
        Err(SynthesisError::Status(status))
    } else {
        match answer {
            BackendAnswer::Audio(body) => Ok(body@),
            BackendAnswer::Envelope(Some(text)) => match decode_spec(text@) {
                Some(bytes) => Ok(bytes),
                None => Err(SynthesisError::MalformedResponse),
            },
            BackendAnswer::Envelope(None) => Err(SynthesisError::MalformedResponse),
        }
    }
}

/// Reads the answer of a service in either shape and returns the audio, or
/// the failure that the answer amounts to.
pub fn read_answer(status: u16, answer: BackendAnswer) -> (r: Result<Vec<u8>, SynthesisError>)
    ensures
        (match r {
            Ok(bytes) => Ok(bytes@),
            Err(error) => Err(error),
        }) == read_answer_spec(status, answer),
        r matches Ok(bytes) ==> is_success_spec(status) && (answer matches BackendAnswer::Envelope(
            Some(text),
        ) ==> encode_spec(bytes@) == text@),
{
    if !(200 <= status && status <= 299) {
        return Err(SynthesisError::Status(status));
    }
    match answer {
        BackendAnswer::Audio(body) => Ok(body),
        BackendAnswer::Envelope(Some(text)) => match decode_base64(text.as_str()) {
            Some(bytes) => Ok(bytes),
            None => Err(SynthesisError::MalformedResponse),
        },
        BackendAnswer::Envelope(None) => Err(SynthesisError::MalformedResponse),
    }
}

/// A call of the shared synthesis service: the path, the query parameters
/// in order, and the value of the `Authorization` header.
#[derive(Debug, PartialEq, Eq)]
pub struct ServiceCall {
    pub path: String,
    pub query: Vec<(String, String)>,
    pub authorization: String,
}

/// The names and values held by a list of query parameters.
pub open spec fn query_views(query: Seq<(String, String)>) -> Seq<(Seq<char>, Seq<char>)> {
    Seq::new(query.len(), |k: int| (query[k].0@, query[k].1@))
}

/// The value of the `Authorization` header: the key, or nothing where the
/// service asks for none.
pub open spec fn authorization_spec(auth_key: Option<Seq<char>>) -> Seq<char> {
    match auth_key {
        Some(key) => key,
        None => Seq::empty(),
    }
}

/// The value of the `Authorization` header.
fn authorization(auth_key: Option<&str>) -> (r: String)
    ensures
        r@ == authorization_spec(opt_str(auth_key)),
{
    match auth_key {
        Some(key) => key.to_owned(),
        None => String::new(),
    }
}

/// A query parameter.
fn pair(name: &str, value: &str) -> (r: (String, String))
    ensures
        r.0@ == name@,
        r.1@ == value@,
{
    (name.to_owned(), value.to_owned())
}

/// The call that lists the voices of a kind of backend: the path `voices`,
/// with the mode and the wish for the unformatted list.
pub fn voices_call(mode: TTSMode, auth_key: Option<&str>) -> (call: ServiceCall)
    ensures
        call.path@ == "voices"@,
        query_views(call.query@) == seq![
            ("mode"@, mode_name_spec(mode)),
            ("raw"@, "true"@),
        ],
        call.authorization@ == authorization_spec(opt_str(auth_key)),
{
    let mut query: Vec<(String, String)> = Vec::new();
    query.push(pair("mode", mode_name(mode)));
    query.push(pair("raw", "true"));
    assert(query_views(query@) =~= seq![("mode"@, mode_name_spec(mode)), ("raw"@, "true"@)]);
    ServiceCall { path: "voices".to_owned(), query, authorization: authorization(auth_key) }
}

/// The call that lists the languages that the service translates into.
pub fn translation_languages_call(auth_key: Option<&str>) -> (call: ServiceCall)
    ensures
        call.path@ == "translation_languages"@,
        call.query@.len() == 0,
        call.authorization@ == authorization_spec(opt_str(auth_key)),
{
    ServiceCall {
        path: "translation_languages".to_owned(),
        query: Vec::new(),
        authorization: authorization(auth_key),
    }
}

/// The query of a synthesis call: text, voice, mode, the longest audio
/// wanted, the format, the speaking rate, and the language to translate
/// into where one is set.
pub open spec fn synthesis_query_spec(
    mode: TTSMode,
    text: Seq<char>,
    voice: Seq<char>,
    speaking_rate: Seq<char>,
    max_length: Seq<char>,
    translation_lang: Option<Seq<char>>,
) -> Seq<(Seq<char>, Seq<char>)> {
    let fixed = seq![
        ("text"@, text),
        ("lang"@, voice),
        ("mode"@, mode_name_spec(mode)),
        ("max_length"@, max_length),
        ("preferred_format"@, "mp3"@),
        ("speaking_rate"@, speaking_rate),
    ];
    match translation_lang {
        Some(language) => fixed.push(("translation_lang"@, language)),
        None => fixed,
    }
}

/// The call that synthesises a text on the shared synthesis service: the
/// path `tts`, with the request in the query and the key in the header.
pub fn synthesis_call(
    mode: TTSMode,
    text: &str,
    voice: &str,
    speaking_rate: &str,
    max_length: &str,
    translation_lang: Option<&str>,
    auth_key: Option<&str>,
) -> (call: ServiceCall)
    ensures
        call.path@ == "tts"@,
        query_views(call.query@) == synthesis_query_spec(
            mode,
            text@,
            voice@,
            speaking_rate@,
            max_length@,
            opt_str(translation_lang),
        ),
        call.authorization@ == authorization_spec(opt_str(auth_key)),
{
    let mut query: Vec<(String, String)> = Vec::new();
    query.push(pair("text", text));
    query.push(pair("lang", voice));
    query.push(pair("mode", mode_name(mode)));
    query.push(pair("max_length", max_length));
    query.push(pair("preferred_format", "mp3"));
    query.push(pair("speaking_rate", speaking_rate));
    let ghost fixed = query_views(query@);
    assert(fixed =~= seq![
        ("text"@, text@),
        ("lang"@, voice@),
        ("mode"@, mode_name_spec(mode)),
        ("max_length"@, max_length@),
        ("preferred_format"@, "mp3"@),
        ("speaking_rate"@, speaking_rate@),
    ]);
    match translation_lang {
        Some(language) => {
            query.push(pair("translation_lang", language));
            assert(query_views(query@) =~= fixed.push(("translation_lang"@, language@)));
        },
        None => {},
    }
    ServiceCall { path: "tts".to_owned(), query, authorization: authorization(auth_key) }
}

/// The language that the shared synthesis service is to translate into:
/// the guild's target language, where the guild has translation switched on
/// and is entitled to it; none otherwise.
pub open spec fn translation_target_spec(
    to_translate: bool,
    is_premium: bool,
    target_lang: Option<Seq<char>>,
) -> Option<Seq<char>> {
    if to_translate && is_premium {
        target_lang
    } else {
        None
    }
}

/// The language that the shared synthesis service is to translate into.
pub fn translation_target(to_translate: bool, is_premium: bool, target_lang: Option<&str>) -> (r:
    Option<String>)
    ensures
        opt_text(r) == translation_target_spec(to_translate, is_premium, opt_str(target_lang)),
{
    if to_translate && is_premium {
        match target_lang {
            Some(language) => Some(language.to_owned()),
            None => None,
        }
    } else {
        None
    }
}

} // verus!
