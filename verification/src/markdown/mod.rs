//! Strip markdown syntax so it isn't read aloud.
//!
//! Listening to a `.md` file is noisy: every `*` in a nested `** bold **` bullet is
//! pronounced, `#` announces itself, and a fenced code block or a table turns into a long
//! run of punctuation names. This module runs over the whole document before it is cut
//! into sentences (the fenced-code state machine is inherently multi-line) and removes
//! the syntax while keeping the prose.
//!
//! The rules are deliberately conservative — a false positive silently mangles speech,
//! which is worse than leaving a stray marker in. In particular `3 * 4 = 12` and
//! `snake_case_name` pass through untouched.
//!
//! Not handled on purpose: 4-space indented code blocks. They are indistinguishable from a
//! wrapped list continuation, so dropping them would silently eat prose.

pub mod block;
pub mod block_laws;
pub mod document;
pub mod document_laws;
pub mod emphasis;
pub mod emphasis_laws;
pub mod glyph_laws;
pub mod glyphs;
pub mod idempotence_laws;
pub mod inline_laws;
pub mod line_laws;
pub mod prose_laws;
pub mod spans;
pub mod spans_laws;

pub use document::strip;
