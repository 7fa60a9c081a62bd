//! The value side of the intermediate representation.

use vstd::prelude::*;
use crate::types::{Type, TypeInfo};

verus! {

/// A value of the language: anything that knows the type it belongs to.
pub trait Value<T: Type>: TypeInfo<T> {

}

} // verus!
