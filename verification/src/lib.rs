//! Merging of two subtitle tracks into one styled, two-layer script.
//!
//! The parsers turn the text of a subtitle file into [`ast::Block`]s, the
//! normalizer aligns one track to another, and the emitter writes the merged
//! script. Every function states its result over the character sequences
//! and the time values it works on.
//!
//! Times of day are read, written, subtracted and moved by `chrono`; the
//! fields of an event and the tracks of a merge are kept in
//! `indexmap::IndexMap`.

pub mod error;
pub mod text;
pub mod lines;
pub mod time;
pub mod ast;
pub mod ordered_map;
pub mod srt_parser;
pub mod ass_parser;
pub mod order;
pub mod normalize;
pub mod emit;
pub mod merge;
