//! Moves the tracks of a music library export into a playlist of a streaming
//! service: tracks are read out of the export's key-value tree, matched by a
//! free-text search, and the matched identifiers are appended in batches.

pub mod song;
pub mod export;
pub mod pipeline;
