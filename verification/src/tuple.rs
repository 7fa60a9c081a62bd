//! Tuples of the intermediate representation: tuple values, their
//! definitions, and the prototype definition attached to a tuple type.

use vstd::prelude::*;
use core::marker::PhantomData;
use crate::prototype::{Prototype, PrototypeDefinition};
use crate::types::{Type, TypeInfo};
use crate::values::Value;

verus! {

/// The definition of a tuple type: its name, its arity, and the types of
/// its positions.
pub struct TupleDefinition<T: Type> {
    pub name: String,
    pub size: i8,
    pub shape: Vec<T>,
}

impl<T: Type> Type for TupleDefinition<T> {
    open spec fn spec_name(&self) -> Seq<char> {
        self.name@
    }

    fn name(&self) -> (r: String) {
        self.name.clone()
    }
}

/// A tuple value: its arity, its element values, and its definition.
pub struct TupleValue<T: Type, V: Value<T>> {
    pub size: i8,
    pub values: Vec<V>,
    pub _type: TupleDefinition<T>,
}

impl<T: Type, V: Value<T>> TupleValue<T, V> {
    /// The element at the given position.
    pub fn index(&self, index: usize) -> (r: &V)
        requires
            index < self.values@.len(),
        ensures
            *r == self.values@[index as int],
    {
        &self.values[index]
    }
}

impl<T: Type, V: Value<T>> TypeInfo<TupleDefinition<T>> for TupleValue<T, V> {
    open spec fn spec_type(&self) -> TupleDefinition<T> {
        self._type
    }

    fn get_type(self) -> (t: TupleDefinition<T>) {
        self._type
    }
}

impl<T: Type, V: Value<T>> Value<TupleDefinition<T>> for TupleValue<T, V> {

}

/// The prototype definition associated with a tuple type: it remembers the
/// receiver the prototype will be built over, and the name of the tuple
/// type it belongs to.
pub struct TuplePrototypeDefinition<T: Type, V: Value<T>> {
    recipient: V,
    name: String,
    __marker: PhantomData<T>,
}

impl<T: Type, V: Value<T>> TuplePrototypeDefinition<T, V> {
    /// The receiver the prototype will be built over.
    pub closed spec fn spec_recipient(&self) -> V {
        self.recipient
    }

    /// The name of the tuple type this definition belongs to.
    pub closed spec fn spec_tuple_name(&self) -> Seq<char> {
        self.name@
    }

    /// Associate a receiver with the tuple type `_type`.
    pub fn new(recipient: V, _type: T) -> (d: TuplePrototypeDefinition<T, V>)
        ensures
            d.spec_recipient() == recipient,
            d.spec_tuple_name() == _type.spec_name(),
    {
        let name = _type.name();
        TuplePrototypeDefinition { recipient, name, __marker: PhantomData }
    }
}

impl<T: Type, V: Value<T>> PrototypeDefinition<T, V> for TuplePrototypeDefinition<T, V> {
    fn build_proto(self, associated_type: T) -> (p: Prototype<T, V>)
        ensures
            p.spec_receiver() == self.spec_recipient(),
    {
        Prototype::new(self.recipient, associated_type)
    }
}

} // verus!
