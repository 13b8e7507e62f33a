use tts_pipeline::eligibility::{
    run_checks, text_after_prefixes, voice_checks, CheckError, CheckOutcome, GuildSettings,
    MessageFacts, VoiceState, MAX_CONTENT_BYTES,
};

const SETUP: u64 = 10;
const VOICE: u64 = 20;

fn in_voice(channel: u64) -> Option<VoiceState> {
    Some(VoiceState { channel_id: Some(channel), suppressed: false })
}

/// A member in the service's voice channel writes in the set-up channel.
fn message(content: &str) -> MessageFacts {
    MessageFacts {
        author_is_bot: false,
        author_bot_banned: false,
        author_opted_out: false,
        guild_known: true,
        channel_id: SETUP,
        channel_known: true,
        author_is_administrator: false,
        member_roles: Some(vec![1, 2]),
        author_voice: in_voice(VOICE),
        bot_voice: in_voice(VOICE),
        author_voice_channel_is_stage: Some(false),
        content: content.to_string(),
    }
}

fn settings() -> GuildSettings {
    GuildSettings {
        channel: Some(SETUP),
        text_in_voice: true,
        required_role: None,
        required_prefix: None,
        prefix: "-".to_string(),
        bot_ignore: true,
        require_voice: true,
        auto_join: false,
        audience_ignore: true,
    }
}

fn speak(content: &str) -> CheckOutcome {
    CheckOutcome::Speak { content: content.to_string(), autojoin: None, instruction: None }
}

#[test]
fn ordinary_message_is_spoken_in_lower_case() {
    assert_eq!(run_checks(&message("Hello World"), &settings()), speak("hello world"));
    assert_eq!(run_checks(&message("ÄÖÜ Straße"), &settings()), speak("äöü straße"));
}

#[test]
fn instruction_is_taken_off_before_the_text_is_lowered() {
    assert_eq!(
        run_checks(&message("[In A Calm Voice] Good Night"), &settings()),
        CheckOutcome::Speak {
            content: "good night".to_string(),
            autojoin: None,
            instruction: Some("In A Calm Voice".to_string()),
        }
    );
    assert_eq!(
        run_checks(&message("\\Whisper Good Night"), &settings()),
        CheckOutcome::Speak {
            content: "good night".to_string(),
            autojoin: None,
            instruction: Some("Whisper".to_string()),
        }
    );
}

#[test]
fn banned_and_opted_out_authors_are_passed_over() {
    let mut m = message("hello");
    m.author_bot_banned = true;
    assert_eq!(run_checks(&m, &settings()), CheckOutcome::Skip);
    let mut m = message("hello");
    m.author_opted_out = true;
    assert_eq!(run_checks(&m, &settings()), CheckOutcome::Skip);
    let mut m = message("hello");
    m.guild_known = false;
    assert_eq!(run_checks(&m, &settings()), CheckOutcome::Skip);
}

#[test]
fn only_messages_in_spoken_channels_are_spoken() {
    let mut m = message("hello");
    m.channel_id = 99;
    assert_eq!(run_checks(&m, &settings()), CheckOutcome::Skip);
    // The chat of the author's own voice channel counts.
    m.channel_id = VOICE;
    assert_eq!(run_checks(&m, &settings()), speak("hello"));
    let mut g = settings();
    g.text_in_voice = false;
    assert_eq!(run_checks(&m, &g), CheckOutcome::Skip);
    let mut g = settings();
    g.channel = None;
    assert_eq!(run_checks(&m, &g), speak("hello"));
    assert_eq!(run_checks(&message("hello"), &g), CheckOutcome::Skip);
    m.author_voice = None;
    assert_eq!(run_checks(&m, &settings()), CheckOutcome::Skip);
}

#[test]
fn required_role_is_waived_for_administrators() {
    let mut g = settings();
    g.required_role = Some(7);
    assert_eq!(run_checks(&message("hello"), &g), CheckOutcome::Skip);
    let mut m = message("hello");
    m.member_roles = Some(vec![1, 7]);
    assert_eq!(run_checks(&m, &g), speak("hello"));
    let mut m = message("hello");
    m.author_is_administrator = true;
    assert_eq!(run_checks(&m, &g), speak("hello"));
    m.channel_known = false;
    assert_eq!(run_checks(&m, &g), CheckOutcome::Skip);
    // A message that carries no roles is not held to the role.
    let mut m = message("hello");
    m.member_roles = None;
    assert_eq!(run_checks(&m, &g), speak("hello"));
}

#[test]
fn long_messages_are_passed_over() {
    assert_eq!(MAX_CONTENT_BYTES, 1500);
    let longest = "a".repeat(1499);
    assert_eq!(run_checks(&message(&longest), &settings()), speak(&longest));
    assert_eq!(run_checks(&message(&"a".repeat(1500)), &settings()), CheckOutcome::Skip);
    // The length is counted in bytes: 500 characters of three bytes.
    assert_eq!(run_checks(&message(&"あ".repeat(500)), &settings()), CheckOutcome::Skip);
    assert_eq!(
        run_checks(&message(&"あ".repeat(499)), &settings()),
        speak(&"あ".repeat(499))
    );
    assert_eq!(run_checks(&message(&"é".repeat(750)), &settings()), CheckOutcome::Skip);
    assert_eq!(run_checks(&message(&"😀".repeat(375)), &settings()), CheckOutcome::Skip);
    assert_eq!(
        run_checks(&message(&"😀".repeat(374)), &settings()),
        speak(&"😀".repeat(374))
    );
}

#[test]
fn required_prefix_is_needed_and_not_spoken() {
    let mut g = settings();
    g.required_prefix = Some("tts ".to_string());
    assert_eq!(run_checks(&message("TTS Hello"), &g), speak("hello"));
    assert_eq!(run_checks(&message("hello"), &g), CheckOutcome::Skip);
    assert_eq!(run_checks(&message("tts"), &g), CheckOutcome::Skip);
    assert_eq!(run_checks(&message("tts -hello"), &g), CheckOutcome::Skip);
}

#[test]
fn commands_are_not_spoken() {
    assert_eq!(run_checks(&message("-help"), &settings()), CheckOutcome::Skip);
    assert_eq!(run_checks(&message("help -me"), &settings()), speak("help -me"));
    let mut g = settings();
    g.prefix = "TTS!".to_string();
    // The text is lowered before it is held against the prefix.
    assert_eq!(run_checks(&message("TTS!join"), &g), speak("tts!join"));
    g.prefix = "tts!".to_string();
    assert_eq!(run_checks(&message("TTS!join"), &g), CheckOutcome::Skip);
    g.prefix = String::new();
    assert_eq!(run_checks(&message("anything"), &g), CheckOutcome::Skip);
}

#[test]
fn bots_are_spoken_only_where_the_guild_wants_them() {
    let mut m = message("beep");
    m.author_is_bot = true;
    m.author_voice = None;
    assert_eq!(run_checks(&m, &settings()), CheckOutcome::Skip);
    let mut g = settings();
    g.bot_ignore = false;
    assert_eq!(run_checks(&m, &g), speak("beep"));
    m.bot_voice = None;
    assert_eq!(run_checks(&m, &g), CheckOutcome::Skip);
}

#[test]
fn author_has_to_share_the_voice_channel() {
    let mut m = message("hello");
    m.author_voice = in_voice(21);
    assert_eq!(run_checks(&m, &settings()), CheckOutcome::Skip);
    let mut g = settings();
    g.require_voice = false;
    assert_eq!(run_checks(&m, &g), speak("hello"));
    m.author_voice = None;
    assert_eq!(run_checks(&m, &g), speak("hello"));
    assert_eq!(run_checks(&m, &settings()), CheckOutcome::Skip);
}

#[test]
fn service_joins_the_author_where_it_may() {
    let mut m = message("hello");
    m.bot_voice = None;
    assert_eq!(run_checks(&m, &settings()), CheckOutcome::Skip);
    let mut g = settings();
    g.auto_join = true;
    assert_eq!(
        run_checks(&m, &g),
        CheckOutcome::Speak {
            content: "hello".to_string(),
            autojoin: Some(VOICE),
            instruction: None,
        }
    );
    m.author_voice = None;
    assert_eq!(run_checks(&m, &g), CheckOutcome::Skip);
}

#[test]
fn audience_of_a_stage_is_passed_over() {
    let mut m = message("hello");
    m.author_voice = Some(VoiceState { channel_id: Some(VOICE), suppressed: true });
    assert_eq!(run_checks(&m, &settings()), speak("hello"));
    m.author_voice_channel_is_stage = Some(true);
    assert_eq!(run_checks(&m, &settings()), CheckOutcome::Skip);
    let mut g = settings();
    g.audience_ignore = false;
    assert_eq!(run_checks(&m, &g), speak("hello"));
    m.author_voice = in_voice(VOICE);
    assert_eq!(run_checks(&m, &settings()), speak("hello"));
}

#[test]
fn contradicting_facts_are_failures() {
    let mut g = settings();
    g.auto_join = true;
    let mut m = message("hello");
    m.bot_voice = None;
    m.author_voice = Some(VoiceState { channel_id: None, suppressed: false });
    m.channel_id = SETUP;
    assert_eq!(run_checks(&m, &g), CheckOutcome::Failed(CheckError::MissingVoiceChannel));

    let mut m = message("hello");
    m.author_voice_channel_is_stage = None;
    assert_eq!(run_checks(&m, &settings()), CheckOutcome::Failed(CheckError::UnknownVoiceChannel));

    let mut m = message("hello");
    m.author_voice = Some(VoiceState { channel_id: None, suppressed: false });
    m.bot_voice = Some(VoiceState { channel_id: None, suppressed: false });
    assert_eq!(run_checks(&m, &settings()), CheckOutcome::Failed(CheckError::MissingVoiceChannel));

    let mut m = message("hello");
    m.author_voice = None;
    m.bot_voice = Some(VoiceState { channel_id: None, suppressed: false });
    assert_eq!(run_checks(&m, &settings()), CheckOutcome::Failed(CheckError::NotInVoice));
}

#[test]
fn prefixes_are_seen_to_on_the_lowered_text() {
    let mut g = settings();
    assert_eq!(text_after_prefixes("hello", &g), Some("hello".to_string()));
    assert_eq!(text_after_prefixes("-hello", &g), None);
    assert_eq!(text_after_prefixes("", &g), Some(String::new()));
    g.required_prefix = Some("say ".to_string());
    assert_eq!(text_after_prefixes("say hello", &g), Some("hello".to_string()));
    assert_eq!(text_after_prefixes("say ", &g), Some(String::new()));
    assert_eq!(text_after_prefixes("say", &g), None);
    assert_eq!(text_after_prefixes("Say hello", &g), None);
    assert_eq!(text_after_prefixes("say -hello", &g), None);
    g.required_prefix = Some(String::new());
    assert_eq!(text_after_prefixes("hello", &g), Some("hello".to_string()));
}

#[test]
fn voice_checks_hand_text_and_instruction_on() {
    let outcome = voice_checks(
        &message("ignored"),
        &settings(),
        "the text".to_string(),
        Some("whisper".to_string()),
    );
    assert_eq!(
        outcome,
        CheckOutcome::Speak {
            content: "the text".to_string(),
            autojoin: None,
            instruction: Some("whisper".to_string()),
        }
    );
    let mut m = message("ignored");
    m.author_voice = in_voice(77);
    assert_eq!(voice_checks(&m, &settings(), "x".to_string(), None), CheckOutcome::Skip);
}
