//! Building blocks of a batch media converter: filter-graph and command-line
//! assembly for an external encoder, parsing of its progress and loudness
//! reports, and resegmentation of caption cues.
pub mod compose;
pub mod concat;
pub mod filter;
pub mod logging;
pub mod media;
pub mod progress;
pub mod subtitle;
pub mod text;
pub mod worker;
