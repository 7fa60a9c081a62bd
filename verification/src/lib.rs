//! A lexical scanner for the Maple language, together with the first
//! data-shape declarations of its intermediate representation.
//!
//! The core of the crate is the scanner: it turns raw source text into an
//! ordered sequence of positioned tokens.  Every position is a byte offset
//! into the original UTF-8 buffer, and the whole pipeline is specified by a
//! mathematical model of scanning (see [`scan`]) that the executable code is
//! proved to follow exactly.

pub mod codemap;
pub mod errors;
pub mod scan;
pub mod lex;
pub mod laws;

pub mod types;
pub mod values;
pub mod array;
pub mod block;
pub mod closure;
pub mod prototype;
pub mod tuple;
pub mod variable;
