//! Whether a message is to be spoken at all.
//!
//! The facts come from the chat gateway and the stored settings of the guild
//! and the author; the caller gathers them. What they add up to is decided
//! here: the message is passed over, or it is spoken, as what text, after
//! joining which channel, and under which style instruction.

use crate::normalizer::{parse_instruction, parse_instruction_spec};
use crate::text::{opt_text, substring, to_chars};
use vstd::prelude::*;

verus! {

/// The longest message that is spoken, in bytes of UTF-8, is one byte
/// shorter than this.
pub const MAX_CONTENT_BYTES: usize = 1500;

/// Someone's place in the guild's voice channels.
#[derive(Debug, Clone, Copy, PartialEq, Eq, Structural)]
pub struct VoiceState {
    /// The voice channel.
    pub channel_id: Option<u64>,
    /// Whether the member is a listener only, as the audience of a stage is.
    pub suppressed: bool,
}

/// What is known of a message and its author.
#[derive(Debug)]
pub struct MessageFacts {
    /// Whether the author is a bot.
    pub author_is_bot: bool,
    /// Whether the author is banned from the service.
    pub author_bot_banned: bool,
    /// Whether the author has opted out in this guild.
    pub author_opted_out: bool,
    /// Whether the guild of the message is known.
    pub guild_known: bool,
    /// The channel that the message was sent in.
    pub channel_id: u64,
    /// Whether that channel is among the known channels of the guild.
    pub channel_known: bool,
    /// Whether the author is an administrator in that channel.
    pub author_is_administrator: bool,
    /// The roles of the author, where the message carries them.
    pub member_roles: Option<Vec<u64>>,
    /// The author's place in the voice channels, if the author has one.
    pub author_voice: Option<VoiceState>,
    /// The service's own place in the voice channels, if it has one.
    pub bot_voice: Option<VoiceState>,
    /// Whether the author's voice channel is a stage; `None` where that
    /// channel is not among the known channels of the guild.
    pub author_voice_channel_is_stage: Option<bool>,
    /// The text of the message, with mentions made readable.
    pub content: String,
}

/// The settings of a guild that bear on whether a message is spoken.
#[derive(Debug)]
pub struct GuildSettings {
    /// The channel that was set up for the service.
    pub channel: Option<u64>,
    /// Whether messages written in a voice channel's own chat are spoken.
    pub text_in_voice: bool,
    /// The role that an author needs.
    pub required_role: Option<u64>,
    /// The prefix that a message needs, and that is not spoken.
    pub required_prefix: Option<String>,
    /// The prefix of commands: a message that starts with it is a command.
    pub prefix: String,
    /// Whether messages of bots are passed over.
    pub bot_ignore: bool,
    /// Whether the author has to be in the voice channel of the service.
    pub require_voice: bool,
    /// Whether the service joins the author's voice channel of its own accord.
    pub auto_join: bool,
    /// Whether the audience of a stage is passed over.
    pub audience_ignore: bool,
}

/// Why the facts do not add up.
#[derive(Debug, Clone, Copy, PartialEq, Eq, Structural)]
pub enum CheckError {
    /// The author has to be in a voice channel and is in none.
    NotInVoice,
    /// The author's voice state names no channel.
    MissingVoiceChannel,
    /// The author's voice channel is not among the known channels.
    UnknownVoiceChannel,
}

/// What is to be done with a message.
#[derive(Debug, PartialEq, Eq)]
pub enum CheckOutcome {
    /// The message is passed over.
    Skip,
    /// The message is spoken: as `content`, after joining `autojoin` where
    /// that is set, under `instruction` where the message began with one.
    Speak { content: String, autojoin: Option<u64>, instruction: Option<String> },
    /// The facts contradict each other.
    Failed(CheckError),
}

/// An outcome, as plain values.
pub enum OutcomeView {
    Skip,
    Speak { content: Seq<char>, autojoin: Option<u64>, instruction: Option<Seq<char>> },
    Failed(CheckError),
}

impl View for CheckOutcome {
    type V = OutcomeView;

    open spec fn view(&self) -> OutcomeView {
        match *self {
            CheckOutcome::Skip => OutcomeView::Skip,
            CheckOutcome::Speak { content, autojoin, instruction } => OutcomeView::Speak {
                content: content@,
                autojoin,
                instruction: opt_text(instruction),
            },
            CheckOutcome::Failed(error) => OutcomeView::Failed(error),
        }
    }
}

/// What `str::to_lowercase` of the standard library makes of a text.
pub uninterp spec fn lowercased(s: Seq<char>) -> Seq<char>;

/// Calls `str::to_lowercase`. Its result is named, not described: the
/// lowercase equivalent of a text is a matter of the Unicode tables.
#[verifier::external_body]
fn to_lowercase(s: &str) -> (r: String)
    ensures
        r@ == lowercased(s@),
{
    s.to_lowercase()
}

/// Number of bytes of a character in UTF-8.
pub open spec fn utf8_char_len(c: char) -> nat {
    let n = c as u32;
    if n < 0x80 {
        1
    } else if n < 0x800 {
        2
    } else if n < 0x10000 {
        3
    } else {
        4
    }
}

/// Number of bytes of a text in UTF-8.
pub open spec fn utf8_len(s: Seq<char>) -> nat
    decreases s.len(),
{
    if s.len() == 0 {
        0
    } else {
        utf8_len(s.drop_last()) + utf8_char_len(s.last())
    }
}

/// Whether `s` starts with `prefix`. Every text starts with the empty one.
pub open spec fn starts_with(s: Seq<char>, prefix: Seq<char>) -> bool {
    prefix.len() <= s.len() && s.take(prefix.len() as int) == prefix
}

/// The author's voice channel.
pub open spec fn author_channel(m: MessageFacts) -> Option<u64> {
    match m.author_voice {
        Some(state) => state.channel_id,
        None => None,
    }
}

/// The message was sent where messages are spoken: in the channel that was
/// set up, or, where the guild allows it, in the chat of the voice channel
/// that the author is in.
pub open spec fn in_spoken_channel(m: MessageFacts, g: GuildSettings) -> bool {
    g.channel == Some(m.channel_id) || (g.text_in_voice && author_channel(m) == Some(
        m.channel_id,
    ))
}

/// The author may be spoken: no role is required, or the message does not
/// carry the author's roles, or the author has the role, or is an
/// administrator in the channel.
pub open spec fn role_allows(m: MessageFacts, g: GuildSettings) -> bool {
    match (g.required_role, m.member_roles) {
        (Some(role), Some(roles)) => roles@.contains(role) || (m.channel_known
            && m.author_is_administrator),
        _ => true,
    }
}

/// What is left of a text in lower case once the prefixes have been seen
/// to: the text without the prefix that the guild requires. None where the
/// required prefix is missing, or where what is left starts with the prefix
/// of commands.
pub open spec fn after_prefixes(lowered: Seq<char>, g: GuildSettings) -> Option<Seq<char>> {
    let stripped = match g.required_prefix {
        Some(required) => if starts_with(lowered, required@) {
            Some(lowered.skip(required@.len() as int))
        } else {
            None
        },
        None => Some(lowered),
    };
    match stripped {
        Some(text) => if starts_with(text, g.prefix@) {
            None
        } else {
            Some(text)
        },
        None => None,
    }
}

/// The text that is spoken and the instruction that it began with: the
/// message without its instruction, in lower case, with the prefixes seen
/// to.
pub open spec fn spoken_text(content: Seq<char>, g: GuildSettings) -> Option<
    (Seq<char>, Option<Seq<char>>),
> {
    let parsed = parse_instruction_spec(content);
    match after_prefixes(lowercased(parsed.1), g) {
        Some(text) => Some((text, parsed.0)),
        None => None,
    }
}

/// What the voice channels make of a message whose text is to be spoken.
pub open spec fn voice_outcome(
    m: MessageFacts,
    g: GuildSettings,
    content: Seq<char>,
    instruction: Option<Seq<char>>,
) -> OutcomeView {
    if m.author_is_bot {
        if g.bot_ignore || m.bot_voice is None {
            OutcomeView::Skip
        } else {
            OutcomeView::Speak { content, autojoin: None, instruction }
        }
    } else {
        let joined: Result<Option<u64>, OutcomeView> = match m.bot_voice {
            Some(bot) => if g.require_voice && bot.channel_id != author_channel(m) {
                Err(OutcomeView::Skip)
            } else {
                Ok(None)
            },
            None => match m.author_voice {
                Some(state) => if g.auto_join {
                    match state.channel_id {
                        Some(channel) => Ok(Some(channel)),
                        None => Err(OutcomeView::Failed(CheckError::MissingVoiceChannel)),
                    }
                } else {
                    Err(OutcomeView::Skip)
                },
                None => Err(OutcomeView::Skip),
            },
        };
        match joined {
            Err(outcome) => outcome,
            Ok(autojoin) => if !g.require_voice {
                OutcomeView::Speak { content, autojoin, instruction }
            } else {
                match m.author_voice {
                    None => OutcomeView::Failed(CheckError::NotInVoice),
                    Some(state) => match state.channel_id {
                        None => OutcomeView::Failed(CheckError::MissingVoiceChannel),
                        Some(_) => match m.author_voice_channel_is_stage {
                            None => OutcomeView::Failed(CheckError::UnknownVoiceChannel),
                            Some(stage) => if stage && state.suppressed && g.audience_ignore {
                                OutcomeView::Skip
                            } else {
                                OutcomeView::Speak { content, autojoin, instruction }
                            },
                        },
                    },
                }
            },
        }
    }
}

/// What is to be done with a message.
pub open spec fn check_spec(m: MessageFacts, g: GuildSettings) -> OutcomeView {
    if m.author_bot_banned || m.author_opted_out || !m.guild_known {
        OutcomeView::Skip
    } else if !in_spoken_channel(m, g) || !role_allows(m, g) {
        OutcomeView::Skip
    } else if utf8_len(m.content@) >= MAX_CONTENT_BYTES {
        OutcomeView::Skip
    } else {
        match spoken_text(m.content@, g) {
            Some((text, instruction)) => voice_outcome(m, g, text, instruction),
            None => OutcomeView::Skip,
        }
    }
}

/// Whether the text has at least `limit` bytes in UTF-8.
fn has_bytes(chars: &Vec<char>, limit: usize) -> (r: bool)
    ensures
        r == (utf8_len(chars@) >= limit),
{
    if limit == 0 {
        return true;
    }
    let mut total: usize = 0;
    let mut i: usize = 0;
    assert(chars@.take(0) =~= Seq::<char>::empty());
    while i < chars.len()
        invariant
            i <= chars.len(),
            total == utf8_len(chars@.take(i as int)),
            total < limit,
        decreases chars.len() - i,
    {
        let n: u32 = chars[i] as u32;
        let len: usize = if n < 0x80 {
            1
        } else if n < 0x800 {
            2
        } else if n < 0x10000 {
            3
        } else {
            4
        };
        proof {
            assert(chars@.take(i + 1).drop_last() == chars@.take(i as int));
            lemma_utf8_len_grows(chars@, i + 1);
        }
        if len >= limit - total {
            return true;
        }
        total += len;
        i += 1;
    }
    assert(chars@.take(i as int) == chars@);
    false
}

/// A text has at least as many bytes as any of its beginnings.
pub proof fn lemma_utf8_len_grows(s: Seq<char>, k: int)
    requires
        0 <= k <= s.len(),
    ensures
        utf8_len(s.take(k)) <= utf8_len(s),
    decreases s.len() - k,
{
    if k < s.len() {
        assert(s.take(k + 1).drop_last() == s.take(k));
        lemma_utf8_len_grows(s, k + 1);
    } else {
        assert(s.take(k) == s);
    }
}

/// Whether `chars` starts with `prefix`.
fn chars_start_with(chars: &Vec<char>, prefix: &Vec<char>) -> (r: bool)
    ensures
        r == starts_with(chars@, prefix@),
{
    if prefix.len() > chars.len() {
        return false;
    }
    let mut i: usize = 0;
    while i < prefix.len()
        invariant
            i <= prefix.len() <= chars.len(),
            chars@.take(i as int) == prefix@.take(i as int),
        decreases prefix.len() - i,
    {
        if chars[i] != prefix[i] {
            assert(chars@.take(prefix.len() as int)[i as int] != prefix@[i as int]);
            return false;
        }
        assert(chars@.take(i + 1) == chars@.take(i as int).push(chars@[i as int]));
        assert(prefix@.take(i + 1) == prefix@.take(i as int).push(prefix@[i as int]));
        i += 1;
    }
    assert(prefix@.take(i as int) == prefix@);
    true
}

/// Whether `roles` holds `role`.
fn has_role(roles: &Vec<u64>, role: u64) -> (r: bool)
    ensures
        r == roles@.contains(role),
{
    let mut i: usize = 0;
    while i < roles.len()
        invariant
            i <= roles.len(),
            forall|k: int| 0 <= k < i ==> roles@[k] != role,
        decreases roles.len() - i,
    {
        if roles[i] == role {
            return true;
        }
        i += 1;
    }
    false
}

/// Sees to the prefixes of a text that is in lower case already: takes
/// off the prefix that the guild requires, and returns what is left unless
/// the required prefix is missing or what is left is a command.
pub fn text_after_prefixes(lowered: &str, settings: &GuildSettings) -> (r: Option<String>)
    ensures
        opt_text(r) == after_prefixes(lowered@, *settings),
{
    let lowered = to_chars(lowered);
    let from: usize = match &settings.required_prefix {
        Some(required) => {
            let required = to_chars(required.as_str());
            if !chars_start_with(&lowered, &required) {
                return None;
            }
            required.len()
        },
        None => 0,
    };
    let text = substring(&lowered, from, lowered.len());
    assert(lowered@.subrange(from as int, lowered.len() as int) == lowered@.skip(from as int));
    assert(lowered@.skip(0) == lowered@);
    let prefix = to_chars(settings.prefix.as_str());
    if chars_start_with(&to_chars(text.as_str()), &prefix) {
        return None;
    }
    Some(text)
}

/// Decides what the voice channels of author and service make of a message
/// whose text is to be spoken.
///
/// A bot is spoken where the guild does not pass bots over and the service
/// is in a voice channel. Anyone else is spoken where the service is in a
/// voice channel, which must be the author's where the guild asks for that,
/// or where the service may join the author's channel of its own accord. The
/// audience of a stage is passed over where the guild asks for that.
pub fn voice_checks(
    message: &MessageFacts,
    settings: &GuildSettings,
    content: String,
    instruction: Option<String>,
) -> (outcome: CheckOutcome)
    ensures
        outcome@ == voice_outcome(*message, *settings, content@, opt_text(instruction)),
{
    let author_channel: Option<u64> = match message.author_voice {
        Some(state) => state.channel_id,
        None => None,
    };
    if message.author_is_bot {
        if settings.bot_ignore || message.bot_voice.is_none() {
            return CheckOutcome::Skip;
        }
        return CheckOutcome::Speak { content, autojoin: None, instruction };
    }
    let autojoin: Option<u64> = match message.bot_voice {
        Some(bot) => {
            if settings.require_voice && bot.channel_id != author_channel {
                return CheckOutcome::Skip;
            }
            None
        },
        None => match message.author_voice {
            Some(state) => {
                if !settings.auto_join {
                    return CheckOutcome::Skip;
                }
                match state.channel_id {
                    Some(channel) => Some(channel),
                    None => {
                        return CheckOutcome::Failed(CheckError::MissingVoiceChannel);
                    },
                }
            },
            None => {
                return CheckOutcome::Skip;
            },
        },
    };
    if settings.require_voice {
        let state = match message.author_voice {
            Some(state) => state,
            None => {
                return CheckOutcome::Failed(CheckError::NotInVoice);
            },
        };
        if state.channel_id.is_none() {
            return CheckOutcome::Failed(CheckError::MissingVoiceChannel);
        }
        match message.author_voice_channel_is_stage {
            None => {
                return CheckOutcome::Failed(CheckError::UnknownVoiceChannel);
            },
            Some(stage) => {
                if stage && state.suppressed && settings.audience_ignore {
                    return CheckOutcome::Skip;
                }
            },
        }
    }
    CheckOutcome::Speak { content, autojoin, instruction }
}

/// Runs the checks on a message and says what is to be done with it.
///
/// A message is passed over where its author is banned or has opted out,
/// where it was not sent in a channel whose messages are spoken, where the
/// author lacks the required role, where it is too long, where it lacks the
/// required prefix or is a command, and where the voice channels of author
/// and service do not allow it.
pub fn run_checks(message: &MessageFacts, settings: &GuildSettings) -> (outcome: CheckOutcome)
    ensures
        outcome@ == check_spec(*message, *settings),
        outcome is Speak ==> !message.author_bot_banned && !message.author_opted_out
            && in_spoken_channel(*message, *settings) && utf8_len(message.content@)
            < MAX_CONTENT_BYTES,
{
    if message.author_bot_banned || message.author_opted_out || !message.guild_known {
        return CheckOutcome::Skip;
    }
    let author_channel: Option<u64> = match message.author_voice {
        Some(state) => state.channel_id,
        None => None,
    };
    let in_setup_channel = match settings.channel {
        Some(channel) => channel == message.channel_id,
        None => false,
    };
    let in_own_voice_chat = match author_channel {
        Some(channel) => settings.text_in_voice && channel == message.channel_id,
        None => false,
    };
    if !in_setup_channel && !in_own_voice_chat {
        return CheckOutcome::Skip;
    }
    let allowed = match (settings.required_role, &message.member_roles) {
        (Some(role), Some(roles)) => has_role(roles, role) || (message.channel_known
            && message.author_is_administrator),
        _ => true,
    };
    if !allowed {
        return CheckOutcome::Skip;
    }
    if has_bytes(&to_chars(message.content.as_str()), MAX_CONTENT_BYTES) {
        return CheckOutcome::Skip;
    }
    let (instruction, cleaned) = parse_instruction(message.content.as_str());
    let lowered = to_lowercase(cleaned.as_str());
    match text_after_prefixes(lowered.as_str(), settings) {
        Some(content) => voice_checks(message, settings, content, instruction),
        None => CheckOutcome::Skip,
    }
}

} // verus!
