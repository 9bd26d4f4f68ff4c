//! A layout engine for PROTO scene-description documents.
//!
//! The engine walks a concrete syntax tree and re-emits canonical,
//! whitespace-normalized text. Every formatting routine is specified by a
//! spec function that states the text it appends to the emission state.

pub mod args;
pub mod beautifier;
pub mod emit;
pub mod layout;
pub mod syntax;
pub mod text;

pub use args::Arguments;
pub use beautifier::beautify;
pub mod laws;
