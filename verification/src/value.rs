//! Event values: the tagged union that topics and payloads are made of,
//! and its mathematical model.

use vstd::prelude::*;

verus! {

/// A runtime datum carried by an event, as a topic or as (part of) its payload.
///
/// Containers may be absent: `Vec(None)` and `Mapping(None)` are values of the
/// container kind that hold no container at all.
#[derive(Debug, PartialEq, Eq)]
pub enum Value {
    Bool(bool),
    Void,
    /// An error, as its category and the code within that category.
    Error { category: u32, code: u32 },
    U32(u32),
    I32(i32),
    U64(u64),
    I64(i64),
    U128(u128),
    I128(i128),
    /// A 256-bit unsigned integer: its high half, then its low half.
    U256(u128, u128),
    /// A 256-bit signed integer: its signed high half, then its unsigned low half.
    I256(i128, u128),
    /// An address in its textual form.
    Address(String),
    Symbol(String),
    String(String),
    Bytes(Vec<u8>),
    Vec(Option<Vec<Value>>),
    Mapping(Option<Vec<MapEntry>>),
}

/// One entry of a `Value::Mapping`, in the order in which the event lists it.
#[derive(Debug, PartialEq, Eq)]
pub struct MapEntry {
    pub key: Value,
    pub val: Value,
}

/// The mathematical model of a [`Value`]: strings are sequences of characters,
/// containers are sequences of models.
pub enum ValueModel {
    Bool(bool),
    Void,
    Error { category: u32, code: u32 },
    U32(u32),
    I32(i32),
    U64(u64),
    I64(i64),
    U128(u128),
    I128(i128),
    U256(u128, u128),
    I256(i128, u128),
    Address(Seq<char>),
    Symbol(Seq<char>),
    String(Seq<char>),
    Bytes(Seq<u8>),
    Vec(Option<Seq<ValueModel>>),
    Mapping(Option<Seq<EntryModel>>),
}

/// The mathematical model of a [`MapEntry`].
pub struct EntryModel {
    pub key: ValueModel,
    pub val: ValueModel,
}

impl View for Value {
    type V = ValueModel;

    open spec fn view(&self) -> ValueModel
        decreases self,
    {
        match self {
            Value::Bool(b) => ValueModel::Bool(*b),
            Value::Void => ValueModel::Void,
            Value::Error { category, code } => ValueModel::Error {
                category: *category,
                code: *code,
            },
            Value::U32(n) => ValueModel::U32(*n),
            Value::I32(n) => ValueModel::I32(*n),
            Value::U64(n) => ValueModel::U64(*n),
            Value::I64(n) => ValueModel::I64(*n),
            Value::U128(n) => ValueModel::U128(*n),
            Value::I128(n) => ValueModel::I128(*n),
            Value::U256(hi, lo) => ValueModel::U256(*hi, *lo),
            Value::I256(hi, lo) => ValueModel::I256(*hi, *lo),
            Value::Address(s) => ValueModel::Address(s@),
            Value::Symbol(s) => ValueModel::Symbol(s@),
            Value::String(s) => ValueModel::String(s@),
            Value::Bytes(b) => ValueModel::Bytes(b@),
            Value::Vec(None) => ValueModel::Vec(None),
            Value::Vec(Some(items)) => ValueModel::Vec(Some(value_models(items@))),
            Value::Mapping(None) => ValueModel::Mapping(None),
            Value::Mapping(Some(entries)) => ValueModel::Mapping(Some(entry_models(entries@))),
        }
    }
}

impl View for MapEntry {
    type V = EntryModel;

    open spec fn view(&self) -> EntryModel
        decreases self,
    {
        EntryModel { key: self.key@, val: self.val@ }
    }
}

impl Clone for Value {
    fn clone(&self) -> (r: Self)
        ensures
            r@ == self@,
        decreases self,
    {
        match self {
            Value::Bool(b) => Value::Bool(*b),
            Value::Void => Value::Void,
            Value::Error { category, code } => Value::Error { category: *category, code: *code },
            Value::U32(n) => Value::U32(*n),
            Value::I32(n) => Value::I32(*n),
            Value::U64(n) => Value::U64(*n),
            Value::I64(n) => Value::I64(*n),
            Value::U128(n) => Value::U128(*n),
            Value::I128(n) => Value::I128(*n),
            Value::U256(hi, lo) => Value::U256(*hi, *lo),
            Value::I256(hi, lo) => Value::I256(*hi, *lo),
            Value::Address(s) => Value::Address(s.clone()),
            Value::Symbol(s) => Value::Symbol(s.clone()),
            Value::String(s) => Value::String(s.clone()),
            Value::Bytes(b) => {
                let mut out: Vec<u8> = Vec::new();
                let mut i: usize = 0;
                while i < b.len()
                    invariant
                        i <= b.len(),
                        out@ == b@.take(i as int),
                    decreases b.len() - i,
                {
                    out.push(b[i]);
                    assert(b@.take(i + 1) =~= b@.take(i as int).push(b@[i as int]));
                    i += 1;
                }
                assert(b@.take(b@.len() as int) =~= b@);
                Value::Bytes(out)
            },
            Value::Vec(None) => Value::Vec(None),
            Value::Vec(Some(items)) => {
                let mut out: Vec<Value> = Vec::new();
                let mut i: usize = 0;
                while i < items.len()
                    invariant
                        i <= items.len(),
                        out@.len() == i,
                        forall|j: int| 0 <= j < i ==> (#[trigger] out@[j])@ == items@[j]@,
                        *self == Value::Vec(Some(*items)),
                    decreases items.len() - i,
                {
                    assert(decreases_to!(*self => items[i as int])) by {
                        assert(decreases_to!(*self => self->Vec_0));
                        assert(decreases_to!(self->Vec_0 => self->Vec_0->Some_0));
                        assert(decreases_to!(*items => items[i as int]));
                    }
                    out.push(items[i].clone());
                    i += 1;
                }
                proof {
                    lemma_value_models(out@);
                    lemma_value_models(items@);
                    assert(value_models(out@) =~= value_models(items@));
                }
                Value::Vec(Some(out))
            },
            Value::Mapping(None) => Value::Mapping(None),
            Value::Mapping(Some(entries)) => {
                let mut out: Vec<MapEntry> = Vec::new();
                let mut i: usize = 0;
                while i < entries.len()
                    invariant
                        i <= entries.len(),
                        out@.len() == i,
                        forall|j: int| 0 <= j < i ==> (#[trigger] out@[j])@ == entries@[j]@,
                        *self == Value::Mapping(Some(*entries)),
                    decreases entries.len() - i,
                {
                    assert(decreases_to!(*self => entries[i as int])) by {
                        assert(decreases_to!(*self => self->Mapping_0));
                        assert(decreases_to!(self->Mapping_0 => self->Mapping_0->Some_0));
                        assert(decreases_to!(*entries => entries[i as int]));
                    }
                    let key = entries[i].key.clone();
                    let val = entries[i].val.clone();
                    out.push(MapEntry { key, val });
                    i += 1;
                }
                proof {
                    lemma_entry_models(out@);
                    lemma_entry_models(entries@);
                    assert(entry_models(out@) =~= entry_models(entries@));
                }
                Value::Mapping(Some(out))
            },
        }
    }
}

impl Clone for MapEntry {
    fn clone(&self) -> (r: Self)
        ensures
            r@ == self@,
    {
        MapEntry { key: self.key.clone(), val: self.val.clone() }
    }
}

/// The models of a sequence of values, position by position.
pub open spec fn value_models(values: Seq<Value>) -> Seq<ValueModel>
    decreases values,
{
    if values.len() == 0 {
        Seq::empty()
    } else {
        value_models(values.drop_last()).push(values.last()@)
    }
}

/// The models of a sequence of entries, position by position.
pub open spec fn entry_models(entries: Seq<MapEntry>) -> Seq<EntryModel>
    decreases entries,
{
    if entries.len() == 0 {
        Seq::empty()
    } else {
        entry_models(entries.drop_last()).push(entries.last()@)
    }
}

/// `value_models` keeps the length and models each position.
pub proof fn lemma_value_models(values: Seq<Value>)
    ensures
        value_models(values).len() == values.len(),
        forall|i: int| 0 <= i < values.len() ==> (#[trigger] value_models(values)[i]) == values[i]@,
    decreases values.len(),
{
    if values.len() > 0 {
        lemma_value_models(values.drop_last());
        assert(value_models(values) == value_models(values.drop_last()).push(values.last()@));
    } else {
        assert(value_models(values) == Seq::<ValueModel>::empty());
    }
}

/// `entry_models` keeps the length and models each position.
pub proof fn lemma_entry_models(entries: Seq<MapEntry>)
    ensures
        entry_models(entries).len() == entries.len(),
        forall|i: int|
            0 <= i < entries.len() ==> (#[trigger] entry_models(entries)[i]) == entries[i]@,
    decreases entries.len(),
{
    if entries.len() > 0 {
        lemma_entry_models(entries.drop_last());
        assert(entry_models(entries) == entry_models(entries.drop_last()).push(entries.last()@));
    } else {
        assert(entry_models(entries) == Seq::<EntryModel>::empty());
    }
}

} // verus!





