//! The type side of the intermediate representation: the `Type` trait and
//! the primitive types of the language.

use vstd::prelude::*;

verus! {

/// A type of the language.  Every type can render its name.
pub trait Type: Sized {
    /// The mathematical view of this type's rendered name.
    spec fn spec_name(&self) -> Seq<char>;

    /// Render the type's name.
    fn name(&self) -> (r: String)
        ensures
            r@ == self.spec_name(),
    ;
}

/// Carried by every value shape that knows the type it belongs to.
pub trait TypeInfo<T: Type>: Sized {
    /// The mathematical view of the type this value carries.
    spec fn spec_type(&self) -> T;

    /// Surrender this value's type.
    fn get_type(self) -> (t: T)
        ensures
            t == self.spec_type(),
    ;
}

/// The built-in primitive types.
#[derive(Debug, Clone, Copy, PartialEq, Eq, Structural)]
pub enum PrimitiveType {
    String,
    Integer,
    Float,
    Boolean,
    Nil,
}

impl Type for PrimitiveType {
    open spec fn spec_name(&self) -> Seq<char> {
        match self {
            PrimitiveType::String => "String"@,
            PrimitiveType::Integer => "Int"@,
            PrimitiveType::Float => "Float"@,
            PrimitiveType::Boolean => "Boolean"@,
            PrimitiveType::Nil => "Nil"@,
        }
    }

    fn name(&self) -> (r: String) {
        match self {
            PrimitiveType::String => "String".to_owned(),
            PrimitiveType::Integer => "Int".to_owned(),
            PrimitiveType::Float => "Float".to_owned(),
            PrimitiveType::Boolean => "Boolean".to_owned(),
            PrimitiveType::Nil => "Nil".to_owned(),
        }
    }
}

} // verus!
