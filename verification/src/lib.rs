//! A dialogue script engine: a line-oriented script is parsed into a
//! document of named sections, and a cursor walks that document one
//! sub-line at a time, jumping between sections through menu choices.
//!
//! - `model`: the document and its mathematical model
//! - `cursor`: the playback position
//! - `walker`: lookup, advance and menu choice
//! - `laws`: what holds of every walk
//! - `text`, `text_laws`: characters, trimming, searching
//! - `parser`: the script format
//! - `printer`: a document written back as a script
//! - `canonical`, `roundtrip`: what is written is read back unchanged

pub mod model;
pub mod cursor;
pub mod text;
pub mod text_laws;
pub mod walker;
pub mod laws;
pub mod parser;
pub mod printer;
pub mod canonical;
pub mod roundtrip;
