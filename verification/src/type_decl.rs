//! Declared types: what an event spec says a parameter's value must be.

use vstd::prelude::*;

verus! {

/// An abstract type that a spec declares for a parameter.
///
/// A declaration holds no strings or vectors, so it serves as its own
/// mathematical model.
#[derive(Debug, PartialEq, Eq)]
pub enum TypeDecl {
    Bool,
    Void,
    Error,
    U32,
    I32,
    U64,
    I64,
    U128,
    I128,
    U256,
    I256,
    Address,
    Symbol,
    String,
    Bytes,
    /// A value of the inner type that may be left out.
    Option(Box<TypeDecl>),
    /// A byte string of exactly this length.
    BytesN(u32),
    /// A vector; the element type is declared but not enforced.
    Vec(Box<TypeDecl>),
    /// A mapping; the key and value types are declared but not enforced.
    Mapping(Box<TypeDecl>, Box<TypeDecl>),
}

impl Clone for TypeDecl {
    fn clone(&self) -> (r: Self)
        ensures
            r == *self,
        decreases self,
    {
        match self {
            TypeDecl::Bool => TypeDecl::Bool,
            TypeDecl::Void => TypeDecl::Void,
            TypeDecl::Error => TypeDecl::Error,
            TypeDecl::U32 => TypeDecl::U32,
            TypeDecl::I32 => TypeDecl::I32,
            TypeDecl::U64 => TypeDecl::U64,
            TypeDecl::I64 => TypeDecl::I64,
            TypeDecl::U128 => TypeDecl::U128,
            TypeDecl::I128 => TypeDecl::I128,
            TypeDecl::U256 => TypeDecl::U256,
            TypeDecl::I256 => TypeDecl::I256,
            TypeDecl::Address => TypeDecl::Address,
            TypeDecl::Symbol => TypeDecl::Symbol,
            TypeDecl::String => TypeDecl::String,
            TypeDecl::Bytes => TypeDecl::Bytes,
            TypeDecl::Option(inner) => TypeDecl::Option(Box::new((**inner).clone())),
            TypeDecl::BytesN(n) => TypeDecl::BytesN(*n),
            TypeDecl::Vec(elem) => TypeDecl::Vec(Box::new((**elem).clone())),
            TypeDecl::Mapping(key, val) => TypeDecl::Mapping(
                Box::new((**key).clone()),
                Box::new((**val).clone()),
            ),
        }
    }
}

} // verus!
