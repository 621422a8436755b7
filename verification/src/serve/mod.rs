//! The warm daemon and its thin client: what they agree on, and what each decides.
//!
//! The daemon compiles its pipeline once and owns audio output; the client pipes text to it,
//! so that speaking again and again never pays for the compilation.

pub mod accept;
pub mod accept_laws;
pub mod request;
pub mod request_laws;
pub mod socket;
pub mod timeouts;
pub mod voices;

pub use request::{parse_request, Job};
pub use socket::socket_path;
pub use timeouts::{parse_idle_timeout, parse_sink_idle_ms, DEFAULT_IDLE_TIMEOUT_SECS};
pub use voices::resolve_voice;
