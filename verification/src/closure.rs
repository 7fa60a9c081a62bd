//! Closures of the intermediate representation.

use vstd::prelude::*;
use crate::block::Block;

verus! {

/// A named closure: its body, and the names of the values it closes over.
/// The bindings behind those names are a concern of the future evaluator.
pub struct Closure {
    /// The closure's name.
    pub name: String,
    /// The names of the values closed over.
    pub closed_values: Vec<String>,
    /// The closure's body.
    pub body: Block,
}

} // verus!
