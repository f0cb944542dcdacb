//! Verified core of a video thumbnail-sheet generator: sampling-plan
//! computation, metadata extraction, thumbnail normalization, and the
//! deterministic geometric composition of thumbnails and a header into one
//! final bitmap. File, process and font I/O live outside this crate.
pub mod bitmap;
pub mod error;
pub mod grid;
pub mod numfmt;
pub mod parse;
pub mod video;
pub mod plan;
pub mod header;
pub mod cli;
