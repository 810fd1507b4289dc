//! Core engines of a "learn a language by typing" tool.
//!
//! The crate verifies two stateful engines: a per-character typing session
//! that tracks keystrokes against a reference sentence with German-specific
//! character equivalence, and a bitext word-alignment state machine that
//! builds, highlights and deletes pairings between words of a source
//! sentence and its translation. Rendering, persistence and the translation
//! service are external collaborators and live outside the library.

pub mod alignment;
pub mod application_types;
pub mod matcher;
pub mod selection;
pub mod text;
pub mod translation;
pub mod types;
