//! Rewriting of type paths for source-position provenance.
//!
//! Given the text of a type path such as `foo::bar::Baz` and the file, line
//! and column of the spot where the rewrite was requested, the library
//! produces the text of the same path whose last segment carries exactly one
//! const string generic argument, `foo::bar::Baz::<"file:line:col">`. The
//! intended use is a procedural macro that lets zero-sized marker types
//! record where they were instantiated; the macro shell itself must live in a
//! crate compiled as a procedural macro, and hands the path text and the
//! invocation position to this library as plain values.
//!
//! All text is handled as bytes. The path grammar, the decimal rendering of
//! the position, the escaping of the string literal, the rewrite of the last
//! segment and the final rendering are all verified against the
//! specifications in the respective modules.

pub mod bytes;
pub mod path;
pub mod location;
pub mod literal;
pub mod parse;
pub mod render;
pub mod rewrite;
pub mod laws;
