//! Prototypes: the set of named methods attached to a receiver of a type.

use vstd::prelude::*;
use vstd::string::{StrSliceExecFns, StringExecFns};
use crate::closure::Closure;
use crate::types::Type;
use crate::values::Value;

verus! {

/// Placeholder for the receiver values a method is spread over.
#[derive(Debug, Clone, Copy, PartialEq, Eq, Structural)]
pub struct Spread {

}

/// A method of a prototype: the closure that implements it, named after
/// that closure.
pub struct PrototypeMethod {
    closure: Closure,
    reciever_values: Spread,
}

impl PrototypeMethod {
    /// The closure that implements this method.
    pub closed spec fn spec_closure(&self) -> Closure {
        self.closure
    }

    /// The method's name: the name of its closure.
    pub closed spec fn spec_name(&self) -> Seq<char> {
        self.closure.name@
    }

    /// Wrap a closure as a prototype method.
    pub fn new(closure: Closure) -> (m: PrototypeMethod)
        ensures
            m.spec_closure() == closure,
            m.spec_name() == closure.name@,
    {
        PrototypeMethod { closure, reciever_values: Spread {} }
    }

    /// The method's name.
    pub fn get_name(&self) -> (r: String)
        ensures
            r@ == self.spec_name(),
    {
        self.closure.name.clone()
    }
}

/// A prototype: a receiver value, its associated type, and the methods
/// attached to it.  No two methods share a name.
pub struct Prototype<T: Type, V: Value<T>> {
    receiver: V,
    methods: Vec<PrototypeMethod>,
    associated_type: T,
}

/// The message rejecting a second method of an already attached name.
pub open spec fn duplicate_method_msg(method_name: Seq<char>, ty_name: Seq<char>) -> Seq<char> {
    "Method with name '"@ + method_name + "' already exists for type "@ + ty_name
}

impl<T: Type, V: Value<T>> Prototype<T, V> {
    /// The receiver the prototype is attached to.
    pub closed spec fn spec_receiver(&self) -> V {
        self.receiver
    }

    /// The type the prototype is associated with.
    pub closed spec fn spec_associated_type(&self) -> T {
        self.associated_type
    }

    /// The names of the attached methods, in attachment order.
    pub closed spec fn spec_method_names(&self) -> Seq<Seq<char>> {
        self.methods@.map_values(|m: PrototypeMethod| m.spec_name())
    }

    /// The names of the attached methods are pairwise distinct.
    pub open spec fn wf(&self) -> bool {
        forall|i: int, j: int|
            0 <= i < j < self.spec_method_names().len() ==> self.spec_method_names()[i]
                != self.spec_method_names()[j]
    }

    /// A prototype over `receiver` with no methods yet.
    pub fn new(receiver: V, associated_type: T) -> (p: Prototype<T, V>)
        ensures
            p.spec_receiver() == receiver,
            p.spec_associated_type() == associated_type,
            p.spec_method_names() == Seq::<Seq<char>>::empty(),
            p.wf(),
    {
        let p = Prototype { receiver, associated_type, methods: Vec::new() };
        proof {
            assert(p.methods@.len() == 0);
            assert(p.spec_method_names().len() == 0);
            assert(p.spec_method_names() =~= Seq::<Seq<char>>::empty());
        }
        p
    }

    /// Attach a method.  Succeeds exactly when no method of that name is
    /// attached yet; a duplicate name is rejected and changes nothing.
    pub fn add_method(&mut self, method: PrototypeMethod) -> (r: Result<(), String>)
        requires
            old(self).wf(),
        ensures
            final(self).wf(),
            final(self).spec_receiver() == old(self).spec_receiver(),
            final(self).spec_associated_type() == old(self).spec_associated_type(),
            r is Ok <==> !old(self).spec_method_names().contains(method.spec_name()),
            r is Ok ==> final(self).spec_method_names() == old(self).spec_method_names().push(
                method.spec_name(),
            ),
            r matches Err(m) ==> m@ == duplicate_method_msg(
                method.spec_name(),
                old(self).spec_associated_type().spec_name(),
            ),
            r is Err ==> *final(self) == *old(self),
    {
        let method_name = method.get_name();
        let n = self.methods.len();
        let mut i: usize = 0;
        while i < n
            invariant
                *self == *old(self),
                old(self).wf(),
                method_name@ == method.spec_name(),
                n == self.methods@.len(),
                0 <= i <= n,
                forall|j: int|
                    0 <= j < i ==> (#[trigger] self.methods@[j]).spec_name() != method_name@,
            decreases n - i,
        {
            let existing = self.methods[i].get_name();
            if existing == method_name {
                proof {
                    assert(self.spec_method_names()[i as int] == method.spec_name());
                    assert(old(self).spec_method_names().contains(method.spec_name()));
                }
                let ty_name = self.associated_type.name();
                let msg = String::from_str("Method with name '").concat(
                    method_name.as_str(),
                ).concat("' already exists for type ").concat(ty_name.as_str());
                proof {
                    assert(msg@ =~= duplicate_method_msg(
                        method.spec_name(),
                        old(self).spec_associated_type().spec_name(),
                    ));
                }
                return Err(msg);
            }
            i = i + 1;
        }
        proof {
            assert forall|j: int|
                0 <= j < self.spec_method_names().len() implies self.spec_method_names()[j]
                != method.spec_name() by {
                assert(self.methods@[j].spec_name() != method_name@);
            }
            assert(!self.spec_method_names().contains(method.spec_name()));
        }
        let ghost before = self.spec_method_names();
        self.methods.push(method);
        proof {
            assert(self.spec_method_names() =~= before.push(method.spec_name()));
        }
        Ok(())
    }
}

/// Something that can build the prototype of a receiver for a type.
pub trait PrototypeDefinition<T: Type, V: Value<T>>: Sized {
    /// Build the prototype, attaching the definition's receiver to the
    /// given associated type.  The built prototype carries that type and
    /// has no methods yet.
    fn build_proto(self, associated_type: T) -> (p: Prototype<T, V>)
        ensures
            p.spec_associated_type() == associated_type,
            p.spec_method_names() == Seq::<Seq<char>>::empty(),
            p.wf(),
    ;
}

} // verus!
