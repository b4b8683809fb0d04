//! Trigger layer of a local voice-command tool: the hotkey grammar and its
//! errors, and the decisions around offline transcription.

pub mod hotkey;
pub mod transcription;
