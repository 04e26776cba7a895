//! Type compatibility: does a value satisfy a declared type?

use vstd::prelude::*;

use crate::type_decl::TypeDecl;
use crate::value::{Value, ValueModel};

verus! {

/// Whether a value satisfies a declared type.
///
/// An `Option` is transparent: it is satisfied exactly when its inner type is.
/// `BytesN(n)` asks for a byte string of length `n`. A scalar type asks for a
/// value of the same kind. `Vec` and `Mapping` ask for a present container and
/// look no further. Every other pairing fails.
pub open spec fn satisfies(value: ValueModel, decl: TypeDecl) -> bool
    decreases decl,
{
    match decl {
        TypeDecl::Option(inner) => satisfies(value, *inner),
        TypeDecl::BytesN(n) => value matches ValueModel::Bytes(bytes) && bytes.len() == n,
        TypeDecl::Bool => value is Bool,
        TypeDecl::Void => value is Void,
        TypeDecl::Error => value is Error,
        TypeDecl::U32 => value is U32,
        TypeDecl::I32 => value is I32,
        TypeDecl::U64 => value is U64,
        TypeDecl::I64 => value is I64,
        TypeDecl::U128 => value is U128,
        TypeDecl::I128 => value is I128,
        TypeDecl::U256 => value is U256,
        TypeDecl::I256 => value is I256,
        TypeDecl::Address => value is Address,
        TypeDecl::Symbol => value is Symbol,
        TypeDecl::String => value is String,
        TypeDecl::Bytes => value is Bytes,
        TypeDecl::Vec(_) => value matches ValueModel::Vec(Some(_)),
        TypeDecl::Mapping(_, _) => value matches ValueModel::Mapping(Some(_)),
    }
}

/// Decides whether `value` satisfies `decl`. Never fails: a pairing that is not
/// compatible is simply `false`.
pub fn type_matches(value: &Value, decl: &TypeDecl) -> (r: bool)
    ensures
        r == satisfies(value@, *decl),
    decreases decl,
{
    match decl {
        TypeDecl::Option(inner) => type_matches(value, inner),
        TypeDecl::BytesN(n) => match value {
            Value::Bytes(bytes) => bytes.len() == *n as usize,
            _ => false,
        },
        TypeDecl::Bool => matches!(value, Value::Bool(_)),
        TypeDecl::Void => matches!(value, Value::Void),
        TypeDecl::Error => matches!(value, Value::Error { .. }),
        TypeDecl::U32 => matches!(value, Value::U32(_)),
        TypeDecl::I32 => matches!(value, Value::I32(_)),
        TypeDecl::U64 => matches!(value, Value::U64(_)),
        TypeDecl::I64 => matches!(value, Value::I64(_)),
        TypeDecl::U128 => matches!(value, Value::U128(_)),
        TypeDecl::I128 => matches!(value, Value::I128(_)),
        TypeDecl::U256 => matches!(value, Value::U256(..)),
        TypeDecl::I256 => matches!(value, Value::I256(..)),
        TypeDecl::Address => matches!(value, Value::Address(_)),
        TypeDecl::Symbol => matches!(value, Value::Symbol(_)),
        TypeDecl::String => matches!(value, Value::String(_)),
        TypeDecl::Bytes => matches!(value, Value::Bytes(_)),
        TypeDecl::Vec(_) => matches!(value, Value::Vec(Some(_))),
        TypeDecl::Mapping(_, _) => matches!(value, Value::Mapping(Some(_))),
    }
}

/// An optional type is satisfied by exactly the values that satisfy its inner
/// type. The inner type may itself be optional.
pub proof fn lemma_option_is_transparent(value: ValueModel, decl: TypeDecl)
    ensures
        satisfies(value, TypeDecl::Option(Box::new(decl))) <==> satisfies(value, decl),
{
}

/// A byte string satisfies `BytesN(n)` exactly when its length is `n`.
pub proof fn lemma_bytes_n_is_exact_length(bytes: Seq<u8>, n: u32)
    ensures
        satisfies(ValueModel::Bytes(bytes), TypeDecl::BytesN(n)) <==> bytes.len() == n,
{
}

/// What satisfies a declared type is decided by the value's outer shape alone:
/// its kind, the presence of its container, and the length of its bytes.
pub proof fn lemma_satisfies_reads_outer_shape(a: ValueModel, b: ValueModel, decl: TypeDecl)
    requires
        same_outer_shape(a, b),
    ensures
        satisfies(a, decl) == satisfies(b, decl),
    decreases decl,
{
    match decl {
        TypeDecl::Option(inner) => lemma_satisfies_reads_outer_shape(a, b, *inner),
        _ => {},
    }
}

/// Two values of one kind that agree on what a type check can see.
pub open spec fn same_outer_shape(a: ValueModel, b: ValueModel) -> bool {
    match (a, b) {
        (ValueModel::Bool(_), ValueModel::Bool(_)) => true,
        (ValueModel::Void, ValueModel::Void) => true,
        (ValueModel::Error { .. }, ValueModel::Error { .. }) => true,
        (ValueModel::U32(_), ValueModel::U32(_)) => true,
        (ValueModel::I32(_), ValueModel::I32(_)) => true,
        (ValueModel::U64(_), ValueModel::U64(_)) => true,
        (ValueModel::I64(_), ValueModel::I64(_)) => true,
        (ValueModel::U128(_), ValueModel::U128(_)) => true,
        (ValueModel::I128(_), ValueModel::I128(_)) => true,
        (ValueModel::U256(..), ValueModel::U256(..)) => true,
        (ValueModel::I256(..), ValueModel::I256(..)) => true,
        (ValueModel::Address(_), ValueModel::Address(_)) => true,
        (ValueModel::Symbol(_), ValueModel::Symbol(_)) => true,
        (ValueModel::String(_), ValueModel::String(_)) => true,
        (ValueModel::Bytes(x), ValueModel::Bytes(y)) => x.len() == y.len(),
        (ValueModel::Vec(x), ValueModel::Vec(y)) => x is Some == y is Some,
        (ValueModel::Mapping(x), ValueModel::Mapping(y)) => x is Some == y is Some,
        _ => false,
    }
}

} // verus!
