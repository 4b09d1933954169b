//! Repairs of EPUB packages: XML declarations, links to renamed files, images
//! without a source, and the language a package declares.
//!
//! The library works on the bytes of archive entries. Reading and writing
//! the container is the caller's part: `archive` has the two passes over
//! the entries, `epub` the repairs of one entry, `encoding_matcher` the
//! recognizer of XML declarations, `language` the rule on declared
//! languages, `paths` and `text` what these are built on. `html` and `xml`
//! hold the calls into the parsers.

pub mod archive;
pub mod cli;
pub mod encoding_matcher;
pub mod epub;
pub mod error;
pub mod html;
pub mod language;
pub mod paths;
pub mod text;
pub mod xml;

pub use cli::Args;
pub use error::FixError;
