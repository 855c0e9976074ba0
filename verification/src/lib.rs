//! Which strokes produce a word?
//!
//! Stenographic dictionaries map strokes to translations. This library turns
//! such dictionaries round, holds the reverse dictionaries of a run in the
//! order of their precedence, and answers lookups over them, also in the
//! form of a small service.

pub mod alfred;
pub mod dictionary;
pub mod error;
pub mod grouping;
pub mod index_set;
pub mod keyed;
pub mod output;
pub mod paths;
pub mod plover_config;
pub mod ranking;
pub mod service;
pub mod text;

pub use dictionary::{Dictionary, InvertedDictionary, Stroke, Translation};
pub use error::LoadError;
pub use index_set::IndexSet;
