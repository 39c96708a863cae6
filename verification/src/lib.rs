//! Substitution of environment-style variable placeholders in text.
//!
//! Text may reference variables in three placeholder forms: braced with a
//! default (`${NAME:-DEFAULT}`), braced (`${NAME}`), and bare (`$NAME`).
//! The parser extracts the placeholders in scan order; the substitutor
//! resolves each name against an injected key/value environment, subject to
//! two strictness flags, and rewrites the text by global pattern replacement.

pub mod cli;
pub mod errors;
pub mod parser;
pub mod substitutor;
pub mod text;

pub use errors::EnvSubstError;
