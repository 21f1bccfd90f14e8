//! Turns a book of markdown chapters into an EPUB archive.
//!
//! The book and its settings come as plain values, and so does what the world
//! outside holds for the book: the files that were looked for and the
//! resources that were fetched. `generator::requests` lists what a build will
//! look for, and `generate` makes the archive.

pub mod archive;
pub mod book;
pub mod errors;
pub mod files;
pub mod generator;
pub mod markdown;
pub mod metadata;
pub mod naming;
pub mod paths;
pub mod plan;
pub mod quotes;
pub mod resources;
pub mod stylesheet;
pub mod template;
pub mod text;

pub use crate::errors::Error;
pub use crate::generator::{build, generate, Generator};
pub use crate::markdown::EventQuoteConverter;
pub use crate::quotes::convert_quotes_to_curly;
pub use crate::stylesheet::DEFAULT_CSS;
