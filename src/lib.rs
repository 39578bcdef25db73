//! Line-editing support for an interactive shell that browses a tree of
//! groups and leaves stored in a file: paths, a total line parser, a
//! cursor classifier and a lazily filled completion cache.

pub mod cache;
pub mod classify;
pub mod completer;
pub mod engine;
pub mod error;
pub mod highlight;
mod index;
pub mod input;
pub mod parse;
pub mod path;
pub mod scanner;
pub mod text;
pub mod text_index;
pub mod text_range;
