//! Parameter kinds: the sequence of value kinds that an event carries, and
//! the sequence that an event spec asks for.

use vstd::prelude::*;

use crate::event::Event;
use crate::event_spec::{DataFormat, EventSpec, ParamModel, SpecModel, SpecParam};
use crate::matcher::{borrowed_param_models, data_params, partition_params, topic_params};
use crate::type_check::satisfies;
use crate::type_decl::TypeDecl;
use crate::value::{lemma_value_models, value_models, Value, ValueModel};

verus! {

/// The kind of a value: its variant, without what it holds.
#[derive(Clone, Copy, Debug, PartialEq, Eq)]
pub enum ValueKind {
    Bool,
    Void,
    Error,
    U32,
    I32,
    U64,
    I64,
    U128,
    I128,
    U256,
    I256,
    Address,
    Symbol,
    String,
    Bytes,
    Vec,
    Mapping,
}

/// The kind of a value.
pub open spec fn kind_of(value: ValueModel) -> ValueKind {
    match value {
        ValueModel::Bool(_) => ValueKind::Bool,
        ValueModel::Void => ValueKind::Void,
        ValueModel::Error { .. } => ValueKind::Error,
        ValueModel::U32(_) => ValueKind::U32,
        ValueModel::I32(_) => ValueKind::I32,
        ValueModel::U64(_) => ValueKind::U64,
        ValueModel::I64(_) => ValueKind::I64,
        ValueModel::U128(_) => ValueKind::U128,
        ValueModel::I128(_) => ValueKind::I128,
        ValueModel::U256(..) => ValueKind::U256,
        ValueModel::I256(..) => ValueKind::I256,
        ValueModel::Address(_) => ValueKind::Address,
        ValueModel::Symbol(_) => ValueKind::Symbol,
        ValueModel::String(_) => ValueKind::String,
        ValueModel::Bytes(_) => ValueKind::Bytes,
        ValueModel::Vec(_) => ValueKind::Vec,
        ValueModel::Mapping(_) => ValueKind::Mapping,
    }
}

/// The kind of `value`.
pub fn value_kind(value: &Value) -> (r: ValueKind)
    ensures
        r == kind_of(value@),
{
    match value {
        Value::Bool(_) => ValueKind::Bool,
        Value::Void => ValueKind::Void,
        Value::Error { .. } => ValueKind::Error,
        Value::U32(_) => ValueKind::U32,
        Value::I32(_) => ValueKind::I32,
        Value::U64(_) => ValueKind::U64,
        Value::I64(_) => ValueKind::I64,
        Value::U128(_) => ValueKind::U128,
        Value::I128(_) => ValueKind::I128,
        Value::U256(..) => ValueKind::U256,
        Value::I256(..) => ValueKind::I256,
        Value::Address(_) => ValueKind::Address,
        Value::Symbol(_) => ValueKind::Symbol,
        Value::String(_) => ValueKind::String,
        Value::Bytes(_) => ValueKind::Bytes,
        Value::Vec(_) => ValueKind::Vec,
        Value::Mapping(_) => ValueKind::Mapping,
    }
}

/// The declared types that the table of value kinds covers.
pub open spec fn has_value_kind(decl: TypeDecl) -> bool {
    decl is U32 || decl is U64 || decl is I128 || decl is String || decl is Symbol
        || decl is Address || decl is Vec || decl is Mapping
}

/// The kind of value that a declared type of the table asks for. For a type
/// outside the table it says nothing.
pub open spec fn value_kind_of_type(decl: TypeDecl) -> ValueKind
    recommends
        has_value_kind(decl),
{
    match decl {
        TypeDecl::U32 => ValueKind::U32,
        TypeDecl::U64 => ValueKind::U64,
        TypeDecl::I128 => ValueKind::I128,
        TypeDecl::String => ValueKind::String,
        TypeDecl::Symbol => ValueKind::Symbol,
        TypeDecl::Address => ValueKind::Address,
        TypeDecl::Vec(_) => ValueKind::Vec,
        TypeDecl::Mapping(_, _) => ValueKind::Mapping,
        _ => arbitrary(),
    }
}

/// The kind of value that `decl` asks for. The table covers the types that
/// `has_value_kind` lists and no others.
pub fn type_to_value_kind(decl: &TypeDecl) -> (r: ValueKind)
    requires
        has_value_kind(*decl),
    ensures
        r == value_kind_of_type(*decl),
{
    match decl {
        TypeDecl::U32 => ValueKind::U32,
        TypeDecl::U64 => ValueKind::U64,
        TypeDecl::I128 => ValueKind::I128,
        TypeDecl::String => ValueKind::String,
        TypeDecl::Symbol => ValueKind::Symbol,
        TypeDecl::Address => ValueKind::Address,
        TypeDecl::Vec(_) => ValueKind::Vec,
        TypeDecl::Mapping(_, _) => ValueKind::Mapping,
        _ => vstd::pervasive::unreached(),
    }
}

/// A value that satisfies a declared type of the table has the kind that the
/// table gives for that type.
pub proof fn lemma_value_kind_agrees_with_type_check(value: ValueModel, decl: TypeDecl)
    requires
        has_value_kind(decl),
        satisfies(value, decl),
    ensures
        kind_of(value) == value_kind_of_type(decl),
{
}

/// Something that carries or asks for a sequence of value kinds: one per
/// topic, then one for the payload.
pub trait ParamTypes {
    /// Whether every kind of the sequence is defined.
    spec fn param_types_defined(&self) -> bool;

    /// The sequence of kinds.
    spec fn param_kinds(&self) -> Seq<ValueKind>;

    /// The sequence of kinds: one per topic, then one for the payload.
    fn param_types(&self) -> (r: Vec<ValueKind>)
        requires
            self.param_types_defined(),
        ensures
            r@ == self.param_kinds(),
    ;
}

/// The kinds of a sequence of values, position by position.
pub open spec fn kinds_of(values: Seq<ValueModel>) -> Seq<ValueKind> {
    values.map_values(|v: ValueModel| kind_of(v))
}

impl ParamTypes for Event {
    open spec fn param_types_defined(&self) -> bool {
        true
    }

    /// The kind of each topic, then the kind of the payload.
    open spec fn param_kinds(&self) -> Seq<ValueKind> {
        kinds_of(self@.topics).push(kind_of(self@.data))
    }

    fn param_types(&self) -> (r: Vec<ValueKind>) {
        let mut kinds: Vec<ValueKind> = Vec::new();
        let mut i: usize = 0;
        proof {
            lemma_value_models(self.topics@);
        }
        while i < self.topics.len()
            invariant
                i <= self.topics.len(),
                value_models(self.topics@).len() == self.topics@.len(),
                forall|j: int|
                    0 <= j < self.topics@.len() ==> (#[trigger] value_models(self.topics@)[j])
                        == self.topics@[j]@,
                kinds@ == kinds_of(value_models(self.topics@)).take(i as int),
            decreases self.topics.len() - i,
        {
            kinds.push(value_kind(&self.topics[i]));
            assert(kinds@ =~= kinds_of(value_models(self.topics@)).take(i + 1));
            i += 1;
        }
        kinds.push(value_kind(&self.data));
        assert(kinds@ =~= self.param_kinds());
        kinds
    }
}

/// The kinds that a sequence of parameters asks for, position by position.
pub open spec fn kinds_of_params(params: Seq<ParamModel>) -> Seq<ValueKind> {
    params.map_values(|p: ParamModel| value_kind_of_type(p.type_))
}

/// The kind of payload that a spec asks for: under the single-value format
/// that of its first data parameter, or `Void` where it declares none; under
/// the other formats the container of the format.
pub open spec fn payload_kind(spec: SpecModel) -> ValueKind {
    match spec.data_format {
        DataFormat::SingleValue => if data_params(spec.params).len() > 0 {
            value_kind_of_type(data_params(spec.params)[0].type_)
        } else {
            ValueKind::Void
        },
        DataFormat::Vec => ValueKind::Vec,
        DataFormat::Mapping => ValueKind::Mapping,
    }
}

impl ParamTypes for EventSpec {
    /// The table of value kinds covers the type of every topic parameter and,
    /// under the single-value format, that of the first data parameter.
    open spec fn param_types_defined(&self) -> bool {
        &&& forall|i: int|
            0 <= i < topic_params(self@.params).len() ==> has_value_kind(
                (#[trigger] topic_params(self@.params)[i]).type_,
            )
        &&& self@.data_format is SingleValue && data_params(self@.params).len() > 0
            ==> has_value_kind(data_params(self@.params)[0].type_)
    }

    /// `Symbol` for each prefix token, then the kind of each topic parameter,
    /// then the kind of the payload.
    open spec fn param_kinds(&self) -> Seq<ValueKind> {
        (Seq::new(self@.prefix_topics.len(), |i: int| ValueKind::Symbol) + kinds_of_params(
            topic_params(self@.params),
        )).push(payload_kind(self@))
    }

    fn param_types(&self) -> (r: Vec<ValueKind>) {
        let (in_topics, in_data) = partition_params(&self.params);
        let ghost prefix = Seq::new(self@.prefix_topics.len(), |i: int| ValueKind::Symbol);
        let ghost declared = topic_params(self@.params);
        let mut kinds: Vec<ValueKind> = Vec::new();
        let mut i: usize = 0;
        while i < self.prefix_topics.len()
            invariant
                i <= self.prefix_topics.len(),
                self@.prefix_topics.len() == self.prefix_topics@.len(),
                prefix == Seq::new(self@.prefix_topics.len(), |i: int| ValueKind::Symbol),
                kinds@ == prefix.take(i as int),
            decreases self.prefix_topics.len() - i,
        {
            kinds.push(ValueKind::Symbol);
            assert(kinds@ =~= prefix.take(i + 1));
            i += 1;
        }
        assert(kinds@ =~= prefix);
        let mut k: usize = 0;
        while k < in_topics.len()
            invariant
                k <= in_topics.len(),
                declared == topic_params(self@.params),
                declared == borrowed_param_models(in_topics@),
                forall|j: int| 0 <= j < declared.len() ==> has_value_kind((#[trigger] declared[j]).type_),
                kinds@ == prefix + kinds_of_params(declared).take(k as int),
            decreases in_topics.len() - k,
        {
            let param: &SpecParam = in_topics[k];
            assert(declared[k as int] == param@);
            kinds.push(type_to_value_kind(&param.type_));
            assert(kinds@ =~= prefix + kinds_of_params(declared).take(k + 1));
            k += 1;
        }
        assert(kinds_of_params(declared).take(declared.len() as int) =~= kinds_of_params(declared));
        let payload = match self.data_format {
            DataFormat::SingleValue => {
                if in_data.len() > 0 {
                    let param: &SpecParam = in_data[0];
                    assert(data_params(self@.params)[0] == param@);
                    type_to_value_kind(&param.type_)
                } else {
                    ValueKind::Void
                }
            },
            DataFormat::Vec => ValueKind::Vec,
            DataFormat::Mapping => ValueKind::Mapping,
        };
        kinds.push(payload);
        kinds
    }
}

} // verus!
