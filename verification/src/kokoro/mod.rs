//! The pieces of the pipeline that every backend shares.

pub mod assets;
pub mod cut_laws;
pub mod input;
pub mod playback;
pub mod playback_laws;
pub mod program;
pub mod sentences;
pub mod sentences_laws;
pub mod sink;
pub mod speaking;
pub mod speaking_laws;
pub mod speech;
pub mod speech_laws;
pub mod vocab;
pub mod wav;

pub use assets::{local_assets_dir, resolve_assets, resolve_assets_tract, Assets, TractAssets, REPO};
pub use input::{
    clean_input, read_text, set_strip_markdown, set_verbose, strip_markdown, verbose,
};
pub use sentences::split_sentences;
pub use sink::{pulseaudio_start_args, DEFAULT_SINK_IDLE};
pub use speech::{
    phonemize, prepare, prepare_or_skip, warn_nothing_spoken, ChunkPrep, Prepared, SAMPLE_RATE,
    STYLE_DIM,
};
pub use vocab::MAX_PHONEMES;
pub use wav::write_wav;
