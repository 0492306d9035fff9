//! A small GLSL include preprocessor.
//!
//! GLSL has no native include mechanism, so shader sources here may use a
//! custom directive line, `#insert "relative/path"`, which the preprocessor
//! replaces with the fully expanded contents of the referenced file,
//! resolved relative to the including file's directory.
//!
//! The preprocessor itself is pure: it works over an in-memory table of
//! file contents ([`vfs::Vfs`]); the caller reads files from disk on demand
//! and feeds them in.

pub mod directive;
pub mod laws;
pub mod paths;
pub mod shader;
pub mod text;
pub mod vfs;
