//! Compile-time style string interpolation, as a verified library.
//!
//! A template — literal text interleaved with embedded expressions such as
//! `${expr}`, `$name` or `{expr}` — is split by a single-pass scanner into an
//! ordered sequence of typed segments.  Doubled delimiter characters in
//! literal text are un-escaped by a normalizer, and an emitter concatenates
//! the normalized literal runs with the stringified expression values, in
//! source order.  A small token-stream rewriter turns `f "lit"` pairs into
//! `format ! ( "lit" )` calls, recursing into nested groups.

pub mod rules;
pub mod segment;
pub mod scanner;
pub mod normalize;
pub mod emit;
pub mod tokens;
pub mod rewrite;
pub mod invoke;
pub mod laws;

pub use rules::Rules;
