//! Variable declarations of the intermediate representation.

use vstd::prelude::*;
use crate::types::Type;
use crate::values::Value;

verus! {

/// How a variable is bound.
#[derive(Debug, Clone, Copy, PartialEq, Eq, Structural)]
pub enum VariableMetaType {
    Static,
}

/// A variable declaration: its binding kind, its type, its initial value
/// and its name.
pub struct VariableDeclaration<T: Type, V: Value<T>> {
    pub meta_type: VariableMetaType,
    pub associated_type: T,
    pub value: V,
    pub name: String,
}

} // verus!
