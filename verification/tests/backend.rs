use tts_pipeline::backend::{
    all_modes, analytics_event, analytics_events, backend_shape, chunks_to_speak, dispatch, effective_instruction, interpret_response,
    mode_name, plan_xsaid, plan_xtts, plan_xtts_for_text, remember_to_update_analytics_query,
    read_answer, speaker_wav, synthesis_call, translation_languages_call, translation_target,
    voices_call,
    xsaid_text, xtts_request, xtts_synthesis_path, BackendAnswer, BackendConfig, BackendShape,
    Dispatch, ResponseShape, ServiceCall, TTSMode, XttsRequest,
};
use tts_pipeline::pipeline::{AudioFraming, SynthesisError};
use tts_pipeline::voice_index::{Voice, VoiceClipIndex};

const ALL_MODES: [TTSMode; 6] = [
    TTSMode::gTTS,
    TTSMode::Polly,
    TTSMode::eSpeak,
    TTSMode::gCloud,
    TTSMode::OpenAI,
    TTSMode::XTTS,
];

fn config() -> BackendConfig {
    BackendConfig {
        tts_service: "http://tts.local/".to_string(),
        tts_service_auth_key: Some("secret".to_string()),
        openai_api_key: Some("key".to_string()),
        xtts_service: Some("http://xtts.local/".to_string()),
        xtts_response: ResponseShape::RawAudio,
        xtts_framing: AudioFraming::Container,
    }
}

fn index() -> VoiceClipIndex {
    let mut index = VoiceClipIndex::new();
    let mut alice = Voice::new("alice");
    alice.insert_clip("en", "./clips/alice/en.wav");
    alice.insert_clip("fr", "./clips/alice/fr.wav");
    index.insert_voice(alice);
    index
}

#[test]
fn every_mode_has_its_analytics_event() {
    remember_to_update_analytics_query();
    let events: Vec<&str> = ALL_MODES.iter().map(|m| analytics_event(*m)).collect();
    assert_eq!(
        events,
        vec!["gTTS_tts", "Polly_tts", "eSpeak_tts", "gCloud_tts", "OpenAI_tts", "XTTS_tts"]
    );
    let names: Vec<&str> = ALL_MODES.iter().map(|m| mode_name(*m)).collect();
    assert_eq!(names, vec!["gtts", "polly", "espeak", "gcloud", "openai", "xtts"]);
}

#[test]
fn modes_follow_three_contracts() {
    assert_eq!(backend_shape(TTSMode::gTTS), BackendShape::RemoteJson);
    assert_eq!(backend_shape(TTSMode::Polly), BackendShape::RemoteJson);
    assert_eq!(backend_shape(TTSMode::eSpeak), BackendShape::RemoteJson);
    assert_eq!(backend_shape(TTSMode::gCloud), BackendShape::RemoteJson);
    assert_eq!(backend_shape(TTSMode::OpenAI), BackendShape::InstructionAware);
    assert_eq!(backend_shape(TTSMode::XTTS), BackendShape::SampleCloning);
}

#[test]
fn temporary_instruction_comes_before_the_persistent_one() {
    assert_eq!(effective_instruction(Some("whisper"), Some("calm")), Some("whisper".to_string()));
    assert_eq!(effective_instruction(None, Some("calm")), Some("calm".to_string()));
    assert_eq!(effective_instruction(Some("whisper"), None), Some("whisper".to_string()));
    assert_eq!(effective_instruction(None, None), None);
}

#[test]
fn requests_go_to_the_backend_of_their_mode() {
    let config = config();
    for mode in [TTSMode::gTTS, TTSMode::Polly, TTSMode::eSpeak, TTSMode::gCloud] {
        assert_eq!(
            dispatch(mode, &config, Some("whisper"), None),
            Dispatch::Remote {
                service: "http://tts.local/".to_string(),
                auth_key: Some("secret".to_string()),
            }
        );
    }
    assert_eq!(
        dispatch(TTSMode::OpenAI, &config, None, Some("calm")),
        Dispatch::InstructionAware {
            api_key: "key".to_string(),
            instruction: Some("calm".to_string()),
        }
    );
    assert_eq!(
        dispatch(TTSMode::OpenAI, &config, Some("whisper"), Some("calm")),
        Dispatch::InstructionAware {
            api_key: "key".to_string(),
            instruction: Some("whisper".to_string()),
        }
    );
    assert_eq!(
        dispatch(TTSMode::XTTS, &config, Some("whisper"), Some("calm")),
        Dispatch::SampleCloning {
            service: "http://xtts.local/".to_string(),
            response: ResponseShape::RawAudio,
            framing: AudioFraming::Container,
        }
    );
}

#[test]
fn unconfigured_backends_are_disabled() {
    let config = BackendConfig {
        tts_service: "http://tts.local/".to_string(),
        tts_service_auth_key: None,
        openai_api_key: None,
        xtts_service: None,
        xtts_response: ResponseShape::JsonBase64,
        xtts_framing: AudioFraming::RawPcm { sample_rate_hz: 24000, frame_bytes: 2 },
    };
    assert_eq!(dispatch(TTSMode::OpenAI, &config, Some("whisper"), None), Dispatch::Disabled);
    assert_eq!(dispatch(TTSMode::XTTS, &config, None, None), Dispatch::Disabled);
    assert_eq!(
        dispatch(TTSMode::gTTS, &config, None, None),
        Dispatch::Remote { service: "http://tts.local/".to_string(), auth_key: None }
    );
}

#[test]
fn sample_reference_names_voice_and_clip_file() {
    assert_eq!(speaker_wav("alice", "./xtts_voice_clips/alice/fr.wav"), "alice/fr.wav");
    assert_eq!(speaker_wav("alice", "fr.wav"), "alice/fr.wav");
    assert_eq!(speaker_wav("bob", "./xtts_voice_clips/default/en.wav"), "bob/en.wav");
    assert_eq!(speaker_wav("alice", "clips/alice/"), "alice/en.wav");
    assert_eq!(speaker_wav("alice", ""), "alice/en.wav");
    assert_eq!(speaker_wav("", "/x"), "/x");
}

#[test]
fn plan_names_clip_language_and_chunks() {
    let index = index();
    let plan = plan_xtts(&index, "  Bonjour  ", "alice", Some("fr".to_string())).unwrap();
    assert_eq!(plan.speaker_wav, "alice/fr.wav");
    assert_eq!(plan.language, "fr");
    assert_eq!(plan.chunks, vec!["Bonjour".to_string()]);

    let plan = plan_xtts(&index, "hello", "alice", Some("ja".to_string())).unwrap();
    assert_eq!(plan.speaker_wav, "alice/en.wav");
    assert_eq!(plan.language, "ja");

    let plan = plan_xtts(&index, "hello", "alice", None).unwrap();
    assert_eq!(plan.speaker_wav, "alice/en.wav");
    assert_eq!(plan.language, "en");

    assert_eq!(plan_xtts(&index, "hello", "nobody", Some("en".to_string())), None);
}

#[test]
fn plan_splits_long_texts() {
    let index = index();
    let text = "a".repeat(600);
    let plan = plan_xtts(&index, &text, "alice", None).unwrap();
    assert_eq!(plan.chunks, vec!["a".repeat(250), "a".repeat(250), "a".repeat(100)]);
    assert_eq!(
        xtts_request(&plan, 2),
        Some(XttsRequest {
            text: "a".repeat(100),
            speaker_wav: "alice/en.wav".to_string(),
            language: "en".to_string(),
        })
    );
    assert_eq!(xtts_request(&plan, 3), None);
}

#[test]
fn plan_detects_the_language_of_the_text() {
    let index = index();
    let text = "Bonjour tout le monde, comment allez-vous aujourd'hui ? Je suis très heureux.";
    let plan = plan_xtts_for_text(&index, text, "alice").unwrap();
    assert_eq!(plan.language, "fr");
    assert_eq!(plan.speaker_wav, "alice/fr.wav");
    assert_eq!(plan.chunks, vec![text.to_string()]);
    let plan = plan_xtts_for_text(&index, "12345", "alice").unwrap();
    assert_eq!(plan.language, "en");
    assert_eq!(plan_xtts_for_text(&index, text, "nobody"), None);
}

#[test]
fn speaker_is_announced_in_english() {
    let index = index();
    assert_eq!(xsaid_text("Carol"), "Carol said");
    assert_eq!(
        plan_xsaid(&index, "alice", "Carol"),
        Some(XttsRequest {
            text: "Carol said".to_string(),
            speaker_wav: "alice/en.wav".to_string(),
            language: "en".to_string(),
        })
    );
    assert_eq!(plan_xsaid(&index, "nobody", "Carol"), None);
    assert_eq!(xtts_synthesis_path(), "/tts_to_audio/");
}

#[test]
fn only_success_statuses_carry_audio() {
    assert_eq!(interpret_response(200, vec![1, 2, 3]), Ok(vec![1, 2, 3]));
    assert_eq!(interpret_response(204, vec![]), Ok(vec![]));
    assert_eq!(interpret_response(299, vec![9]), Ok(vec![9]));
    for status in [0u16, 100, 199, 300, 301, 404, 500, 503, 65535] {
        assert_eq!(interpret_response(status, vec![1]), Err(SynthesisError::Status(status)));
    }
}

#[test]
fn answers_are_read_in_either_shape() {
    assert_eq!(read_answer(200, BackendAnswer::Audio(vec![1, 2, 3])), Ok(vec![1, 2, 3]));
    assert_eq!(
        read_answer(200, BackendAnswer::Envelope(Some("Zm9vYmFy".to_string()))),
        Ok(b"foobar".to_vec())
    );
    assert_eq!(read_answer(201, BackendAnswer::Envelope(Some(String::new()))), Ok(vec![]));
}

#[test]
fn unreadable_answers_are_synthesis_failures() {
    for text in ["Zm9v!mFy", "Zm9", "Zg=", "=", "Zm9vYg=", "Zh==", "Zm9=", "Zm 9v", "Zg==Zg=="] {
        assert_eq!(
            read_answer(200, BackendAnswer::Envelope(Some(text.to_string()))),
            Err(SynthesisError::MalformedResponse)
        );
    }
    assert_eq!(
        read_answer(200, BackendAnswer::Envelope(None)),
        Err(SynthesisError::MalformedResponse)
    );
    // The status decides first.
    assert_eq!(
        read_answer(500, BackendAnswer::Envelope(Some("Zm9v".to_string()))),
        Err(SynthesisError::Status(500))
    );
    assert_eq!(read_answer(404, BackendAnswer::Audio(vec![1])), Err(SynthesisError::Status(404)));
    assert_eq!(read_answer(503, BackendAnswer::Envelope(None)), Err(SynthesisError::Status(503)));
}

fn pairs(list: &[(&str, &str)]) -> Vec<(String, String)> {
    list.iter().map(|(name, value)| (name.to_string(), value.to_string())).collect()
}

#[test]
fn voices_are_listed_by_mode() {
    assert_eq!(
        voices_call(TTSMode::gCloud, Some("secret")),
        ServiceCall {
            path: "voices".to_string(),
            query: pairs(&[("mode", "gcloud"), ("raw", "true")]),
            authorization: "secret".to_string(),
        }
    );
    assert_eq!(voices_call(TTSMode::Polly, None).authorization, "");
    assert_eq!(
        translation_languages_call(None),
        ServiceCall {
            path: "translation_languages".to_string(),
            query: Vec::new(),
            authorization: String::new(),
        }
    );
}

#[test]
fn synthesis_call_carries_the_request() {
    assert_eq!(
        synthesis_call(TTSMode::eSpeak, "hello there", "en-us", "1.5", "30", None, Some("key")),
        ServiceCall {
            path: "tts".to_string(),
            query: pairs(&[
                ("text", "hello there"),
                ("lang", "en-us"),
                ("mode", "espeak"),
                ("max_length", "30"),
                ("preferred_format", "mp3"),
                ("speaking_rate", "1.5"),
            ]),
            authorization: "key".to_string(),
        }
    );
    let call = synthesis_call(TTSMode::gTTS, "hi", "fr", "1", "10", Some("de"), None);
    assert_eq!(call.query.len(), 7);
    assert_eq!(call.query[6], ("translation_lang".to_string(), "de".to_string()));
    assert_eq!(call.authorization, "");
}

#[test]
fn statistics_count_every_backend() {
    assert_eq!(all_modes(), ALL_MODES.to_vec());
    assert_eq!(
        analytics_events(),
        vec!["gTTS_tts", "Polly_tts", "eSpeak_tts", "gCloud_tts", "OpenAI_tts", "XTTS_tts"]
    );
    for mode in ALL_MODES {
        assert!(analytics_events().contains(&analytics_event(mode)));
    }
}

#[test]
fn translation_needs_the_switch_and_the_entitlement() {
    assert_eq!(translation_target(true, true, Some("de")), Some("de".to_string()));
    assert_eq!(translation_target(true, true, None), None);
    assert_eq!(translation_target(false, true, Some("de")), None);
    assert_eq!(translation_target(true, false, Some("de")), None);
    assert_eq!(translation_target(false, false, Some("de")), None);
}

#[test]
fn blank_text_has_nothing_to_synthesise() {
    assert_eq!(chunks_to_speak(""), Vec::<String>::new());
    assert_eq!(chunks_to_speak("  \n "), Vec::<String>::new());
    assert_eq!(chunks_to_speak(&" ".repeat(300)), Vec::<String>::new());
    assert_eq!(chunks_to_speak(" hi "), vec!["hi".to_string()]);
    assert_eq!(chunks_to_speak(&"a".repeat(300)), vec!["a".repeat(250), "a".repeat(50)]);

    let index = index();
    let plan = plan_xtts(&index, "   ", "alice", None).unwrap();
    assert!(plan.chunks.is_empty());
    assert_eq!(xtts_request(&plan, 0), None);
    let plan = plan_xtts_for_text(&index, "", "alice").unwrap();
    assert!(plan.chunks.is_empty());
}
