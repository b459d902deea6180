//! Scope extraction for configuration text.
//!
//! A text is tagged with declaration lines such as `@dev` or `@dev @test`.
//! [`extract_scope`] returns the text as one scope sees it: the lines of
//! other scopes and the declaration lines themselves are blanked, and every
//! line keeps its position, so that line numbers reported against the
//! result still point into the text that was given.
//!
//! The library never looks inside the configuration syntax. What it does is
//! stated over sequences of characters ([`model`]) and proved of the code
//! that runs.

pub mod text;
pub mod scan;
pub mod scope;
pub mod error;
pub mod lines;
pub mod declaration;
pub mod model;
pub mod extract;
pub mod laws;

pub use error::QuillError;
pub use extract::extract_scope;
pub use scope::{is_valid_scope_name, Scope};
