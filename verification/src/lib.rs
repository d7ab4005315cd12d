//! A verified parser-combinator engine over slice inputs.
//!
//! Parsers are small configuration values that implement the [`engine::Parser`]
//! trait: each one carries a specification-level meaning (`spec_run`) and an
//! executable `run` proved to agree with it. Combinators build larger parsers
//! out of smaller ones; grammars for semantic versions, decimal numbers and
//! arithmetic expressions are provided on top of the engine.

pub mod charlike;
pub mod combinators;
pub mod engine;
pub mod expr;
pub mod findbyte;
pub mod needle;
pub mod number;
pub mod parsers;
pub mod prefix;
pub mod semver;
pub mod text;
pub mod version;
pub mod whitespace;

pub use crate::engine::parse;
pub use crate::engine::parse_str;
pub use crate::engine::AnpaResult;
pub use crate::engine::Parser;
