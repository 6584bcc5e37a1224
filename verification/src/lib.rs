//! Prepares paired audio and transcript files as training data for speech
//! synthesis: pairs the files of a directory walk, brings the transcripts
//! into a canonical form, and turns their words into phonemes through a
//! chain of resolvers.

pub mod cli_api;
pub mod decode;
pub mod dict_entry;
pub mod io_map;
pub mod logging;
pub mod model_def;
pub mod normal_form;
pub mod phoneme_resolvers;
pub mod phonemes;
pub mod sequence_model;
pub mod text;
pub mod text_laws;
pub mod training_entry;
