//! Speech-synthesis pipeline logic for a chat-to-voice service: text
//! chunking, language detection, voice-clip lookup, backend dispatch
//! decisions, streaming order and per-session playback queueing.

pub mod backend;
pub mod base64;
pub mod chunker;
pub mod chunker_laws;
pub mod eligibility;
pub mod language;
pub mod normalizer;
pub mod pipeline;
pub mod playback;
pub mod playback_laws;
pub mod request;
pub mod startup;
pub mod text;
pub mod voice_index;
