//! Text-to-speech plumbing that does not touch the model: what is spoken, in which
//! pieces, and how the daemon, its client and the audio sink take turns.

pub mod cli;
pub mod kokoro;
pub mod markdown;
pub mod number;
pub mod promises;
pub mod serve;
pub mod text;
pub mod text_lemmas;
