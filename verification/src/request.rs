//! A speech request and what is to be done for it.
//!
//! A request is what is left of a message once it has been found fit to be
//! spoken. The plan for it says which backend serves it and with what, or
//! that it yields no audio: because there is nothing to say, because its
//! backend is not configured, or because there is no clip of its voice. None
//! of these is an error.

use crate::backend::{
    dispatch, dispatch_spec, plan_xtts_for_text, plan_xtts_spec, BackendConfig, Dispatch,
    DispatchView, ResponseShape, TTSMode, XttsPlan, XttsPlanView,
};
use crate::language::detect_language_spec;
use crate::pipeline::AudioFraming;
use crate::normalizer::{has_speakable_content, has_speakable_content_spec};
use crate::text::{opt_str, opt_text};
use crate::voice_index::VoiceClipIndex;
use vstd::prelude::*;

verus! {

/// One message to be spoken. A request is not changed once it is made.
#[derive(Debug)]
pub struct SpeechRequest {
    text: String,
    voice: String,
    mode: TTSMode,
    speaking_rate: String,
    instruction: Option<String>,
    session: u64,
}

/// What a request holds, as plain values.
pub struct RequestView {
    /// The text to speak, cleaned.
    pub text: Seq<char>,
    /// The voice to speak in.
    pub voice: Seq<char>,
    /// The kind of backend that serves the request.
    pub mode: TTSMode,
    /// The speaking rate, as the settings hold it.
    pub speaking_rate: Seq<char>,
    /// The style instruction that the message began with.
    pub instruction: Option<Seq<char>>,
    /// The voice session that the audio is played into.
    pub session: u64,
}

impl View for SpeechRequest {
    type V = RequestView;

    closed spec fn view(&self) -> RequestView {
        RequestView {
            text: self.text@,
            voice: self.voice@,
            mode: self.mode,
            speaking_rate: self.speaking_rate@,
            instruction: opt_text(self.instruction),
            session: self.session,
        }
    }
}

impl SpeechRequest {
    /// A request for `text` in `voice`, served by `mode`.
    pub fn new(
        text: String,
        voice: String,
        mode: TTSMode,
        speaking_rate: String,
        instruction: Option<String>,
        session: u64,
    ) -> (request: SpeechRequest)
        ensures
            request@ == (RequestView {
                text: text@,
                voice: voice@,
                mode,
                speaking_rate: speaking_rate@,
                instruction: opt_text(instruction),
                session,
            }),
    {
        SpeechRequest { text, voice, mode, speaking_rate, instruction, session }
    }

    /// The text to speak.
    pub fn text(&self) -> (r: &String)
        ensures
            r@ == self@.text,
    {
        &self.text
    }

    /// The voice to speak in.
    pub fn voice(&self) -> (r: &String)
        ensures
            r@ == self@.voice,
    {
        &self.voice
    }

    /// The kind of backend that serves the request.
    pub fn mode(&self) -> (r: TTSMode)
        ensures
            r == self@.mode,
    {
        self.mode
    }

    /// The speaking rate.
    pub fn speaking_rate(&self) -> (r: &String)
        ensures
            r@ == self@.speaking_rate,
    {
        &self.speaking_rate
    }

    /// The style instruction that the message began with.
    pub fn instruction(&self) -> (r: &Option<String>)
        ensures
            opt_text(*r) == self@.instruction,
    {
        &self.instruction
    }

    /// The voice session that the audio is played into.
    pub fn session(&self) -> (r: u64)
        ensures
            r == self@.session,
    {
        self.session
    }
}

/// Why a request yields no audio.
#[derive(Debug, Clone, Copy, PartialEq, Eq, Structural)]
pub enum SkipReason {
    /// The text holds nothing but spaces and punctuation.
    NothingToSay,
    /// The backend of the request is not configured.
    BackendDisabled,
    /// The index resolves to no clip for the voice.
    NoVoiceClip,
}

/// What is to be done for a request.
#[derive(Debug, PartialEq, Eq)]
pub enum RequestPlan {
    /// Nothing: the request yields no audio.
    Skip(SkipReason),
    /// One call of the shared synthesis service for the whole text.
    Remote {
        service: String,
        auth_key: Option<String>,
        mode: TTSMode,
        text: String,
        voice: String,
        speaking_rate: String,
    },
    /// One call of the instruction-aware backend for the whole text.
    InstructionAware {
        api_key: String,
        text: String,
        voice: String,
        speaking_rate: String,
        instruction: Option<String>,
    },
    /// One call of the sample-cloning service for each chunk of the plan.
    SampleCloning { service: String, response: ResponseShape, framing: AudioFraming, plan: XttsPlan },
}

/// A plan, as plain values.
pub enum PlanView {
    Skip(SkipReason),
    Remote {
        service: Seq<char>,
        auth_key: Option<Seq<char>>,
        mode: TTSMode,
        text: Seq<char>,
        voice: Seq<char>,
        speaking_rate: Seq<char>,
    },
    InstructionAware {
        api_key: Seq<char>,
        text: Seq<char>,
        voice: Seq<char>,
        speaking_rate: Seq<char>,
        instruction: Option<Seq<char>>,
    },
    SampleCloning {
        service: Seq<char>,
        response: ResponseShape,
        framing: AudioFraming,
        plan: XttsPlanView,
    },
}

impl View for RequestPlan {
    type V = PlanView;

    open spec fn view(&self) -> PlanView {
        match *self {
            RequestPlan::Skip(reason) => PlanView::Skip(reason),
            RequestPlan::Remote { service, auth_key, mode, text, voice, speaking_rate } => {
                PlanView::Remote {
                    service: service@,
                    auth_key: opt_text(auth_key),
                    mode,
                    text: text@,
                    voice: voice@,
                    speaking_rate: speaking_rate@,
                }
            },
            RequestPlan::InstructionAware { api_key, text, voice, speaking_rate, instruction } => {
                PlanView::InstructionAware {
                    api_key: api_key@,
                    text: text@,
                    voice: voice@,
                    speaking_rate: speaking_rate@,
                    instruction: opt_text(instruction),
                }
            },
            RequestPlan::SampleCloning { service, response, framing, plan } => {
                PlanView::SampleCloning { service: service@, response, framing, plan: plan@ }
            },
        }
    }
}

/// The plan for a request: none for a text with nothing to say; else what
/// the backend of its kind needs, with the instruction of the request before
/// the stored one; for the sample-cloning backend the clip, the language and
/// the chunks, and none where there is no clip.
pub open spec fn plan_request_spec(
    request: RequestView,
    config: BackendConfig,
    voices: Seq<crate::voice_index::VoiceView>,
    persistent_instruction: Option<Seq<char>>,
) -> PlanView {
    if !has_speakable_content_spec(request.text) {
        PlanView::Skip(SkipReason::NothingToSay)
    } else {
        match dispatch_spec(request.mode, config, request.instruction, persistent_instruction) {
            DispatchView::Disabled => PlanView::Skip(SkipReason::BackendDisabled),
            DispatchView::Remote { service, auth_key } => PlanView::Remote {
                service,
                auth_key,
                mode: request.mode,
                text: request.text,
                voice: request.voice,
                speaking_rate: request.speaking_rate,
            },
            DispatchView::InstructionAware { api_key, instruction } => PlanView::InstructionAware {
                api_key,
                text: request.text,
                voice: request.voice,
                speaking_rate: request.speaking_rate,
                instruction,
            },
            DispatchView::SampleCloning { service, response, framing } => match plan_xtts_spec(
                voices,
                request.text,
                request.voice,
                detect_language_spec(request.text),
            ) {
                Some(plan) => PlanView::SampleCloning { service, response, framing, plan },
                None => PlanView::Skip(SkipReason::NoVoiceClip),
            },
        }
    }
}

/// Plans a request: decides which backend serves it and with what, or why it
/// yields no audio.
pub fn plan_request(
    request: &SpeechRequest,
    config: &BackendConfig,
    index: &VoiceClipIndex,
    persistent_instruction: Option<&str>,
) -> (plan: RequestPlan)
    ensures
        plan@ == plan_request_spec(request@, *config, index@, opt_str(persistent_instruction)),
{
    if !has_speakable_content(request.text.as_str()) {
        return RequestPlan::Skip(SkipReason::NothingToSay);
    }
    let temporary: Option<&str> = match &request.instruction {
        Some(instruction) => Some(instruction.as_str()),
        None => None,
    };
    match dispatch(request.mode, config, temporary, persistent_instruction) {
        Dispatch::Disabled => RequestPlan::Skip(SkipReason::BackendDisabled),
        Dispatch::Remote { service, auth_key } => RequestPlan::Remote {
            service,
            auth_key,
            mode: request.mode,
            text: request.text.clone(),
            voice: request.voice.clone(),
            speaking_rate: request.speaking_rate.clone(),
        },
        Dispatch::InstructionAware { api_key, instruction } => RequestPlan::InstructionAware {
            api_key,
            text: request.text.clone(),
            voice: request.voice.clone(),
            speaking_rate: request.speaking_rate.clone(),
            instruction,
        },
        Dispatch::SampleCloning { service, response, framing } => match plan_xtts_for_text(
            index,
            request.text.as_str(),
            request.voice.as_str(),
        ) {
            Some(plan) => RequestPlan::SampleCloning { service, response, framing, plan },
            None => RequestPlan::Skip(SkipReason::NoVoiceClip),
        },
    }
}

} // verus!
