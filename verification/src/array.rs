//! Array types of the intermediate representation.

use vstd::prelude::*;
use vstd::string::StringExecFns;
use crate::types::Type;
use crate::values::Value;

verus! {

/// An array type: the type of its elements and the element values held.
pub struct ArrayType<T: Type, V: Value<T>> {
    element_type: T,
    values: Vec<V>,
}

impl<T: Type, V: Value<T>> ArrayType<T, V> {
    /// The element values, as a sequence.
    pub closed spec fn spec_values(&self) -> Seq<V> {
        self.values@
    }

    /// The element type.
    pub closed spec fn spec_element_type(&self) -> T {
        self.element_type
    }

    /// The element at the given position.
    pub fn index(&self, index: usize) -> (r: &V)
        requires
            index < self.spec_values().len(),
        ensures
            *r == self.spec_values()[index as int],
    {
        &self.values[index]
    }
}

impl<T: Type, V: Value<T>> Type for ArrayType<T, V> {
    closed spec fn spec_name(&self) -> Seq<char> {
        self.element_type.spec_name() + "[]"@
    }

    fn name(&self) -> (r: String) {
        self.element_type.name().concat("[]")
    }
}

} // verus!
