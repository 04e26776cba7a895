//! The event projector: the named values that an event carries under an
//! event spec.
//!
//! The projection is an ordered mapping: a sequence of fields in which no name
//! occurs twice. A name that comes up again takes over the place of its first
//! occurrence. Declared parameters come first, in declaration order; under the
//! mapping format the entries of the payload that no field names yet follow,
//! in the order in which the event lists them.

use vstd::prelude::*;

use crate::event::{Event, EventModel};
use crate::event_spec::{DataFormat, EventSpec, ParamLocation, ParamModel, SpecModel};
use crate::matcher::{
    conforms, data_params, find_entry, located_at, lookup, params_at, topic_params,
};
use crate::type_check::satisfies;
use crate::type_decl::TypeDecl;
use crate::value::{
    entry_models, lemma_entry_models, lemma_value_models, value_models, EntryModel, MapEntry,
    Value, ValueModel,
};

verus! {

/// One field of a projection. It borrows from the event and the spec that it
/// was projected from.
#[derive(Clone, Copy, Debug, PartialEq, Eq)]
pub struct Field<'a> {
    pub name: &'a String,
    /// The declared type, for a declared parameter; `None` for an entry of
    /// the payload that the spec does not declare.
    pub declared: Option<&'a TypeDecl>,
    pub value: &'a Value,
}

/// The mathematical model of a [`Field`].
pub struct FieldModel {
    pub name: Seq<char>,
    pub declared: Option<TypeDecl>,
    pub value: ValueModel,
}

impl<'a> View for Field<'a> {
    type V = FieldModel;

    open spec fn view(&self) -> FieldModel {
        FieldModel {
            name: self.name@,
            declared: match self.declared {
                Some(decl) => Some(*decl),
                None => None,
            },
            value: self.value@,
        }
    }
}

/// The models of a sequence of fields, position by position.
pub open spec fn field_models<'a>(fields: Seq<Field<'a>>) -> Seq<FieldModel> {
    fields.map_values(|f: Field<'a>| f@)
}

/// The topic that the `k`-th declared parameter would read: the topic after
/// the prefix and after one topic for each topic parameter declared before it.
pub open spec fn topic_slot(spec: SpecModel, k: int) -> int {
    (spec.prefix_topics.len() + topic_params(spec.params.take(k)).len()) as int
}

/// The item that the `k`-th declared parameter would read under the vector
/// format: one item for each data parameter declared before it.
pub open spec fn item_slot(spec: SpecModel, k: int) -> int {
    data_params(spec.params.take(k)).len() as int
}

/// The value that the event carries for the `k`-th declared parameter, if it
/// carries one.
///
/// A topic parameter reads its topic, if the event has that many topics. A
/// data parameter reads the whole payload under the single-value format, the
/// entry of its name under the mapping format, and the item at its position
/// under the vector format, if the payload is a present container that has it.
pub open spec fn binding(event: EventModel, spec: SpecModel, k: int) -> Option<ValueModel> {
    match spec.params[k].location {
        ParamLocation::TopicList => {
            if topic_slot(spec, k) < event.topics.len() {
                Some(event.topics[topic_slot(spec, k)])
            } else {
                None
            }
        },
        ParamLocation::Data => match spec.data_format {
            DataFormat::SingleValue => Some(event.data),
            DataFormat::Mapping => match event.data {
                ValueModel::Mapping(Some(entries)) => lookup(entries, spec.params[k].name),
                _ => None,
            },
            DataFormat::Vec => match event.data {
                ValueModel::Vec(Some(items)) => {
                    if item_slot(spec, k) < items.len() {
                        Some(items[item_slot(spec, k)])
                    } else {
                        None
                    }
                },
                _ => None,
            },
        },
    }
}

/// Some field has this name.
pub open spec fn has_name(fields: Seq<FieldModel>, name: Seq<char>) -> bool {
    exists|i: int| 0 <= i < fields.len() && (#[trigger] fields[i]).name == name
}

/// The place of a field with this name, where there is one.
pub open spec fn slot_of(fields: Seq<FieldModel>, name: Seq<char>) -> int {
    choose|i: int| 0 <= i < fields.len() && (#[trigger] fields[i]).name == name
}

/// No name occurs twice.
pub open spec fn distinct_names(fields: Seq<FieldModel>) -> bool {
    forall|i: int, j: int|
        0 <= i < j < fields.len() ==> (#[trigger] fields[i]).name != (#[trigger] fields[j]).name
}

/// Enters a field into an ordered mapping: in the place of the field that has
/// its name, or at the end where none has.
pub open spec fn put(fields: Seq<FieldModel>, field: FieldModel) -> Seq<FieldModel> {
    if has_name(fields, field.name) {
        fields.update(slot_of(fields, field.name), field)
    } else {
        fields.push(field)
    }
}

/// The field of the `k`-th declared parameter with the given value.
pub open spec fn declared_field(spec: SpecModel, k: int, value: ValueModel) -> FieldModel {
    FieldModel { name: spec.params[k].name, declared: Some(spec.params[k].type_), value }
}

/// The fields of the first `k` declared parameters: each parameter that the
/// event carries a value for is entered in turn.
pub open spec fn declared_fields(event: EventModel, spec: SpecModel, k: int) -> Seq<FieldModel>
    decreases k,
{
    if k <= 0 {
        Seq::empty()
    } else {
        let before = declared_fields(event, spec, k - 1);
        match binding(event, spec, k - 1) {
            Some(value) => put(before, declared_field(spec, k - 1, value)),
            None => before,
        }
    }
}

/// The field of an entry that the spec does not declare.
pub open spec fn leftover_field(entries: Seq<EntryModel>, name: Seq<char>) -> FieldModel {
    FieldModel { name, declared: None, value: lookup(entries, name)->Some_0 }
}

/// The fields after the leftover pass over the first `k` entries: each entry
/// that is keyed by a symbol which no field has for its name yet is appended,
/// with the value that the mapping binds to that name.
pub open spec fn with_leftovers(fields: Seq<FieldModel>, entries: Seq<EntryModel>, k: int) -> Seq<
    FieldModel,
>
    decreases k,
{
    if k <= 0 {
        fields
    } else {
        let before = with_leftovers(fields, entries, k - 1);
        match entries[k - 1].key {
            ValueModel::Symbol(name) => if has_name(before, name) {
                before
            } else {
                before.push(leftover_field(entries, name))
            },
            _ => before,
        }
    }
}

/// The projection of an event under a spec.
pub open spec fn projection(event: EventModel, spec: SpecModel) -> Seq<FieldModel> {
    let declared = declared_fields(event, spec, spec.params.len() as int);
    match (spec.data_format, event.data) {
        (DataFormat::Mapping, ValueModel::Mapping(Some(entries))) => with_leftovers(
            declared,
            entries,
            entries.len() as int,
        ),
        _ => declared,
    }
}

/// Where a cursor stands that started at `start` and was to step on to
/// `target`, one step at a time, but steps only while it is below `limit`.
pub open spec fn cursor_at(start: int, target: int, limit: int) -> int {
    if target < limit {
        target
    } else if start <= limit {
        limit
    } else {
        start
    }
}

/// Entering a field keeps the names distinct.
pub proof fn lemma_put_keeps_names_distinct(fields: Seq<FieldModel>, field: FieldModel)
    requires
        distinct_names(fields),
    ensures
        distinct_names(put(fields, field)),
{
    if has_name(fields, field.name) {
        let at = slot_of(fields, field.name);
        let after = fields.update(at, field);
        assert forall|i: int, j: int| 0 <= i < j < after.len() implies (#[trigger] after[i]).name != (
        #[trigger] after[j]).name by {
            assert(after[i].name == fields[i].name);
            assert(after[j].name == fields[j].name);
        }
    } else {
        let after = fields.push(field);
        assert forall|i: int, j: int| 0 <= i < j < after.len() implies (#[trigger] after[i]).name != (
        #[trigger] after[j]).name by {
            if j == fields.len() {
                assert(after[i] == fields[i]);
            } else {
                assert(after[i] == fields[i]);
                assert(after[j] == fields[j]);
            }
        }
    }
}

/// Where an entry is keyed by the symbol `name`, the mapping binds `name`.
pub proof fn lemma_keyed_entry_is_bound(entries: Seq<EntryModel>, name: Seq<char>, at: int)
    requires
        0 <= at < entries.len(),
        entries[at].key == ValueModel::Symbol(name),
    ensures
        lookup(entries, name) is Some,
    decreases entries.len(),
{
    if entries.last().key != ValueModel::Symbol(name) {
        lemma_keyed_entry_is_bound(entries.drop_last(), name, at);
    }
}

/// The place of the field named `name`, if there is one.
fn find_field<'a>(fields: &Vec<Field<'a>>, name: &String) -> (r: Option<usize>)
    ensures
        match r {
            Some(at) => at < fields@.len() && field_models(fields@)[at as int].name == name@,
            None => !has_name(field_models(fields@), name@),
        },
{
    let mut i: usize = 0;
    while i < fields.len()
        invariant
            i <= fields.len(),
            forall|j: int| 0 <= j < i ==> (#[trigger] field_models(fields@)[j]).name != name@,
        decreases fields.len() - i,
    {
        if *fields[i].name == *name {
            return Some(i);
        }
        i += 1;
    }
    None
}

/// Enters `field` into the ordered mapping `fields`.
fn put_field<'a>(fields: &mut Vec<Field<'a>>, field: Field<'a>)
    requires
        distinct_names(field_models(old(fields)@)),
    ensures
        field_models(final(fields)@) == put(field_models(old(fields)@), field@),
        distinct_names(field_models(final(fields)@)),
{
    let ghost before = field_models(fields@);
    proof {
        lemma_put_keeps_names_distinct(before, field@);
    }
    match find_field(fields, field.name) {
        Some(at) => {
            proof {
                assert(before[at as int].name == field@.name);
                let chosen = slot_of(before, field@.name);
                assert(chosen == at) by {
                    if chosen < at {
                        assert(before[chosen].name != before[at as int].name);
                    }
                    if at < chosen {
                        assert(before[at as int].name != before[chosen].name);
                    }
                }
            }
            fields.set(at, field);
            assert(field_models(fields@) =~= before.update(at as int, field@));
        },
        None => {
            fields.push(field);
            assert(field_models(fields@) =~= before.push(field@));
        },
    }
}

/// Projects `event` under `spec` into an ordered mapping of named values.
///
/// The pair need not match: the projection of an event that does not match
/// holds what can be read, and nothing for the parameters that cannot.
pub fn project<'a>(event: &'a Event, spec: &'a EventSpec) -> (r: Vec<Field<'a>>)
    ensures
        field_models(r@) == projection(event@, spec@),
        distinct_names(field_models(r@)),
{
    let ghost e = event@;
    let ghost s = spec@;
    let topics = &event.topics;
    let params = &spec.params;
    let topic_count = topics.len();
    let skip = spec.prefix_topics.len();
    let items: Option<&'a Vec<Value>> = match &event.data {
        Value::Vec(Some(items)) => Some(items),
        _ => None,
    };
    let entries: Option<&'a Vec<MapEntry>> = match &event.data {
        Value::Mapping(Some(entries)) => Some(entries),
        _ => None,
    };
    let mut fields: Vec<Field<'a>> = Vec::new();
    let mut topic_cursor: usize = skip;
    let mut item_cursor: usize = 0;
    let mut k: usize = 0;
    proof {
        reveal(Seq::filter);
        lemma_value_models(topics@);
        assert(s.params.take(0) =~= Seq::<ParamModel>::empty());
        assert(field_models(fields@) =~= declared_fields(e, s, 0));
        match items {
            Some(items) => lemma_value_models(items@),
            None => {},
        }
        match entries {
            Some(entries) => lemma_entry_models(entries@),
            None => {},
        }
    }
    while k < params.len()
        invariant
            k <= params.len(),
            e == event@,
            s == spec@,
            topics == &event.topics,
            params == &spec.params,
            topic_count == topics@.len(),
            skip == s.prefix_topics.len(),
            e.topics.len() == topics@.len(),
            forall|j: int| 0 <= j < topics@.len() ==> (#[trigger] e.topics[j]) == topics@[j]@,
            match items {
                Some(items) => e.data == ValueModel::Vec(Some(value_models(items@)))
                    && value_models(items@).len() == items@.len() && forall|j: int|
                    0 <= j < items@.len() ==> (#[trigger] value_models(items@)[j]) == items@[j]@,
                None => !(e.data matches ValueModel::Vec(Some(_))),
            },
            match entries {
                Some(entries) => e.data == ValueModel::Mapping(Some(entry_models(entries@))),
                None => !(e.data matches ValueModel::Mapping(Some(_))),
            },
            topic_cursor == cursor_at(skip as int, topic_slot(s, k as int), topic_count as int),
            s.data_format is Vec ==> item_cursor == cursor_at(
                0,
                item_slot(s, k as int),
                match items {
                    Some(items) => items@.len() as int,
                    None => 0,
                },
            ),
            field_models(fields@) == declared_fields(e, s, k as int),
            distinct_names(field_models(fields@)),
        decreases params.len() - k,
    {
        let param = &params[k];
        proof {
            let before = s.params.take(k as int);
            assert(s.params[k as int] == param@);
            assert(s.params.take(k + 1) =~= before.push(param@));
            before.lemma_filter_push(param@, located_at(ParamLocation::TopicList));
            before.lemma_filter_push(param@, located_at(ParamLocation::Data));
        }
        let found: Option<&'a Value> = match param.location {
            ParamLocation::TopicList => {
                if topic_cursor < topic_count {
                    let value = &topics[topic_cursor];
                    topic_cursor += 1;
                    Some(value)
                } else {
                    None
                }
            },
            ParamLocation::Data => match spec.data_format {
                DataFormat::SingleValue => Some(&event.data),
                DataFormat::Mapping => match entries {
                    Some(entries) => find_entry(entries, &param.name),
                    None => None,
                },
                DataFormat::Vec => match items {
                    Some(items) => {
                        if item_cursor < items.len() {
                            let value = &items[item_cursor];
                            item_cursor += 1;
                            Some(value)
                        } else {
                            None
                        }
                    },
                    None => None,
                },
            },
        };
        assert(match found {
            Some(value) => binding(e, s, k as int) == Some(value@),
            None => binding(e, s, k as int) is None,
        });
        match found {
            Some(value) => {
                put_field(&mut fields, Field { name: &param.name, declared: Some(&param.type_), value });
            },
            None => {},
        }
        k += 1;
    }
    match (spec.data_format, entries) {
        (DataFormat::Mapping, Some(entries)) => {
            let ghost declared = field_models(fields@);
            let ghost model = entry_models(entries@);
            let mut i: usize = 0;
            while i < entries.len()
                invariant
                    i <= entries.len(),
                    model == entry_models(entries@),
                    model.len() == entries@.len(),
                    forall|j: int| 0 <= j < entries@.len() ==> (#[trigger] model[j]) == entries@[j]@,
                    field_models(fields@) == with_leftovers(declared, model, i as int),
                    distinct_names(field_models(fields@)),
                decreases entries.len() - i,
            {
                let entry = &entries[i];
                assert(model[i as int] == entry@);
                match &entry.key {
                    Value::Symbol(name) => {
                        if find_field(&fields, name).is_none() {
                            proof {
                                lemma_keyed_entry_is_bound(model, name@, i as int);
                            }
                            match find_entry(entries, name) {
                                Some(value) => {
                                    let ghost before = field_models(fields@);
                                    let field = Field { name, declared: None, value };
                                    fields.push(field);
                                    proof {
                                        assert(field@ == leftover_field(model, name@));
                                        assert(field_models(fields@) =~= before.push(field@));
                                        lemma_put_keeps_names_distinct(before, field@);
                                    }
                                },
                                None => {},
                            }
                        }
                    },
                    _ => {},
                }
                i += 1;
            }
        },
        _ => {},
    }
    fields
}

/// Entering a field moves no field: the fields that were there keep their
/// places and their names.
pub proof fn lemma_put_keeps_places(fields: Seq<FieldModel>, field: FieldModel)
    ensures
        fields.len() <= put(fields, field).len(),
        forall|i: int| 0 <= i < fields.len() ==> (#[trigger] put(fields, field)[i]).name == fields[i].name,
        has_name(put(fields, field), field.name),
{
    let after = put(fields, field);
    if has_name(fields, field.name) {
        let at = slot_of(fields, field.name);
        assert(after[at].name == field.name);
    } else {
        assert(after[fields.len() as int].name == field.name);
    }
}

/// Declared parameters are projected in declaration order: the fields of the
/// first `j` parameters keep their places and names when the parameters up to
/// `k` are entered after them.
pub proof fn lemma_declared_fields_keep_places(event: EventModel, spec: SpecModel, j: int, k: int)
    requires
        0 <= j <= k,
    ensures
        declared_fields(event, spec, j).len() <= declared_fields(event, spec, k).len(),
        forall|i: int|
            0 <= i < declared_fields(event, spec, j).len() ==> (#[trigger] declared_fields(
                event,
                spec,
                k,
            )[i]).name == declared_fields(event, spec, j)[i].name,
    decreases k - j,
{
    if j < k {
        lemma_declared_fields_keep_places(event, spec, j, k - 1);
        let before = declared_fields(event, spec, k - 1);
        match binding(event, spec, k - 1) {
            Some(value) => lemma_put_keeps_places(before, declared_field(spec, k - 1, value)),
            None => {},
        }
    }
}

/// Every field of the declared pass is the field of a declared parameter that
/// the event carries a value for: it has that parameter's name and type.
pub proof fn lemma_declared_fields_come_from_params(
    event: EventModel,
    spec: SpecModel,
    k: int,
    i: int,
) -> (from: int)
    requires
        0 <= i < declared_fields(event, spec, k).len(),
    ensures
        0 <= from < k,
        binding(event, spec, from) == Some(declared_fields(event, spec, k)[i].value),
        declared_fields(event, spec, k)[i] == declared_field(
            spec,
            from,
            declared_fields(event, spec, k)[i].value,
        ),
    decreases k,
{
    let before = declared_fields(event, spec, k - 1);
    match binding(event, spec, k - 1) {
        Some(value) => {
            let field = declared_field(spec, k - 1, value);
            if has_name(before, field.name) {
                if i == slot_of(before, field.name) {
                    k - 1
                } else {
                    lemma_declared_fields_come_from_params(event, spec, k - 1, i)
                }
            } else if i == before.len() {
                k - 1
            } else {
                lemma_declared_fields_come_from_params(event, spec, k - 1, i)
            }
        },
        None => lemma_declared_fields_come_from_params(event, spec, k - 1, i),
    }
}

/// The fields of the first `k` declared parameters where no name comes up
/// twice: one field for each parameter that the event carries a value for, in
/// declaration order.
pub open spec fn fields_in_order(event: EventModel, spec: SpecModel, k: int) -> Seq<FieldModel>
    decreases k,
{
    if k <= 0 {
        Seq::empty()
    } else {
        let before = fields_in_order(event, spec, k - 1);
        match binding(event, spec, k - 1) {
            Some(value) => before.push(declared_field(spec, k - 1, value)),
            None => before,
        }
    }
}

/// Where the first `k` declared parameters have distinct names, their fields
/// are exactly the parameters that the event carries a value for, one field
/// each, in declaration order.
pub proof fn lemma_distinct_params_project_in_order(event: EventModel, spec: SpecModel, k: int)
    requires
        0 <= k <= spec.params.len(),
        forall|i: int, j: int|
            0 <= i < j < k ==> (#[trigger] spec.params[i]).name != (#[trigger] spec.params[j]).name,
    ensures
        declared_fields(event, spec, k) == fields_in_order(event, spec, k),
    decreases k,
{
    if k > 0 {
        lemma_distinct_params_project_in_order(event, spec, k - 1);
        let before = declared_fields(event, spec, k - 1);
        match binding(event, spec, k - 1) {
            Some(value) => {
                let field = declared_field(spec, k - 1, value);
                if has_name(before, field.name) {
                    let at = slot_of(before, field.name);
                    let from = lemma_declared_fields_come_from_params(event, spec, k - 1, at);
                    assert(spec.params[from].name != spec.params[k - 1].name);
                }
            },
            None => {},
        }
    }
}

/// The leftover pass moves and changes no field: what it has after `j`
/// entries is a prefix of what it has after `k`.
pub proof fn lemma_leftovers_are_appended(
    fields: Seq<FieldModel>,
    entries: Seq<EntryModel>,
    j: int,
    k: int,
)
    requires
        0 <= j <= k,
    ensures
        with_leftovers(fields, entries, j).len() <= with_leftovers(fields, entries, k).len(),
        with_leftovers(fields, entries, k).take(with_leftovers(fields, entries, j).len() as int)
            == with_leftovers(fields, entries, j),
    decreases k - j,
{
    let short = with_leftovers(fields, entries, j);
    if j < k {
        lemma_leftovers_are_appended(fields, entries, j, k - 1);
        let before = with_leftovers(fields, entries, k - 1);
        let after = with_leftovers(fields, entries, k);
        assert(after.take(short.len() as int) =~= before.take(short.len() as int));
    } else {
        assert(short.take(short.len() as int) =~= short);
    }
}

/// Every field that the leftover pass appends is undeclared, is named by the
/// symbol that keys one of the entries passed over so far, and has the value
/// that the mapping binds to that name.
pub proof fn lemma_leftovers_come_from_entries(
    fields: Seq<FieldModel>,
    entries: Seq<EntryModel>,
    k: int,
    i: int,
) -> (from: int)
    requires
        0 <= k <= entries.len(),
        fields.len() <= i < with_leftovers(fields, entries, k).len(),
    ensures
        0 <= from < k,
        entries[from].key == ValueModel::Symbol(with_leftovers(fields, entries, k)[i].name),
        with_leftovers(fields, entries, k)[i].declared is None,
        lookup(entries, with_leftovers(fields, entries, k)[i].name) == Some(
            with_leftovers(fields, entries, k)[i].value,
        ),
    decreases k,
{
    if k <= 0 {
        0
    } else {
        let before = with_leftovers(fields, entries, k - 1);
        lemma_leftovers_are_appended(fields, entries, 0, k - 1);
        if i < before.len() {
            let from = lemma_leftovers_come_from_entries(fields, entries, k - 1, i);
            lemma_leftovers_are_appended(fields, entries, k - 1, k);
            assert(with_leftovers(fields, entries, k).take(before.len() as int)[i]
                == with_leftovers(fields, entries, k)[i]);
            from
        } else {
            let name = entries[k - 1].key->Symbol_0;
            lemma_keyed_entry_is_bound(entries, name, k - 1);
            k - 1
        }
    }
}

/// After the leftover pass over the first `k` entries, every one of them that
/// is keyed by a symbol is named by a field.
pub proof fn lemma_leftovers_name_every_entry(
    fields: Seq<FieldModel>,
    entries: Seq<EntryModel>,
    k: int,
    at: int,
)
    requires
        0 <= at < k <= entries.len(),
        entries[at].key is Symbol,
    ensures
        has_name(with_leftovers(fields, entries, k), entries[at].key->Symbol_0),
    decreases k,
{
    let name = entries[at].key->Symbol_0;
    let before = with_leftovers(fields, entries, k - 1);
    let after = with_leftovers(fields, entries, k);
    lemma_leftovers_are_appended(fields, entries, k - 1, k);
    if at < k - 1 {
        lemma_leftovers_name_every_entry(fields, entries, k - 1, at);
        let i = choose|i: int| 0 <= i < before.len() && (#[trigger] before[i]).name == name;
        assert(after.take(before.len() as int)[i] == after[i]);
        assert(after[i].name == name);
    } else if has_name(before, name) {
        assert(after == before);
    } else {
        assert(after[before.len() as int].name == name);
    }
}

/// The order of a projection. The fields of the declared parameters come
/// first, in the places that declaration order gives them. Under the mapping
/// format the undeclared entries of the payload follow them, each named by the
/// symbol that keys it and holding the value that the mapping binds to that
/// name; under every other format nothing follows.
pub proof fn lemma_projection_order(event: EventModel, spec: SpecModel)
    ensures
        ({
            let declared = declared_fields(event, spec, spec.params.len() as int);
            let all = projection(event, spec);
            &&& declared.len() <= all.len()
            &&& all.take(declared.len() as int) == declared
            &&& !(spec.data_format is Mapping) ==> all == declared
            &&& forall|i: int|
                declared.len() <= i < all.len() ==> (#[trigger] all[i]).declared is None && (
                event.data matches ValueModel::Mapping(Some(entries)) && lookup(entries, all[i].name)
                    == Some(all[i].value))
        }),
{
    let declared = declared_fields(event, spec, spec.params.len() as int);
    let all = projection(event, spec);
    match (spec.data_format, event.data) {
        (DataFormat::Mapping, ValueModel::Mapping(Some(entries))) => {
            lemma_leftovers_are_appended(declared, entries, 0, entries.len() as int);
            assert forall|i: int| declared.len() <= i < all.len() implies (#[trigger] all[i]).declared
                is None && lookup(entries, all[i].name) == Some(all[i].value) by {
                lemma_leftovers_come_from_entries(declared, entries, entries.len() as int, i);
            }
        },
        _ => {
            assert(all.take(declared.len() as int) =~= declared);
        },
    }
}

/// Undeclared entries are projected in the order in which the event lists
/// them: a field appended for one of the first `j` entries stands before every
/// field appended for a later entry.
pub proof fn lemma_leftovers_keep_event_order(event: EventModel, spec: SpecModel, j: int)
    requires
        spec.data_format is Mapping,
        event.data matches ValueModel::Mapping(Some(entries)) && 0 <= j <= entries.len(),
    ensures
        ({
            let entries = event.data->Mapping_0->Some_0;
            let declared = declared_fields(event, spec, spec.params.len() as int);
            let early = with_leftovers(declared, entries, j);
            &&& early.len() <= projection(event, spec).len()
            &&& projection(event, spec).take(early.len() as int) == early
        }),
{
    let entries = event.data->Mapping_0->Some_0;
    let declared = declared_fields(event, spec, spec.params.len() as int);
    lemma_leftovers_are_appended(declared, entries, j, entries.len() as int);
}

/// Under the mapping format a projection names every entry of the payload
/// that is keyed by a symbol.
pub proof fn lemma_projection_names_every_entry(event: EventModel, spec: SpecModel, at: int)
    requires
        spec.data_format is Mapping,
        event.data matches ValueModel::Mapping(Some(entries)) && 0 <= at < entries.len()
            && entries[at].key is Symbol,
    ensures
        has_name(projection(event, spec), event.data->Mapping_0->Some_0[at].key->Symbol_0),
{
    let entries = event.data->Mapping_0->Some_0;
    let declared = declared_fields(event, spec, spec.params.len() as int);
    lemma_leftovers_name_every_entry(declared, entries, entries.len() as int, at);
}

/// A parameter stands among the parameters of its location at the place that
/// the parameters declared before it leave free.
pub proof fn lemma_param_keeps_its_place(params: Seq<ParamModel>, k: int)
    requires
        0 <= k < params.len(),
    ensures
        params_at(params.take(k), params[k].location).len() < params_at(
            params,
            params[k].location,
        ).len(),
        params_at(params, params[k].location)[params_at(
            params.take(k),
            params[k].location,
        ).len() as int] == params[k],
    decreases params.len(),
{
    let location = params[k].location;
    let front = params.drop_last();
    assert(params =~= front.push(params.last()));
    front.lemma_filter_push(params.last(), located_at(location));
    if k == params.len() - 1 {
        assert(params.take(k) =~= front);
    } else {
        assert(front.take(k) =~= params.take(k));
        lemma_param_keeps_its_place(front, k);
    }
}

/// Under a spec that the event matches, the value that the event carries for
/// a declared parameter has the declared type, and it carries one for every
/// topic parameter.
pub proof fn lemma_matched_binding_is_well_typed(event: EventModel, spec: SpecModel, k: int)
    requires
        conforms(event, spec),
        0 <= k < spec.params.len(),
    ensures
        match binding(event, spec, k) {
            Some(value) => satisfies(value, spec.params[k].type_),
            None => !(spec.params[k].location is TopicList),
        },
{
    lemma_param_keeps_its_place(spec.params, k);
    match spec.params[k].location {
        ParamLocation::TopicList => {
            let declared = topic_params(spec.params);
            let place = topic_params(spec.params.take(k)).len() as int;
            assert(declared[place] == spec.params[k]);
        },
        ParamLocation::Data => {
            let declared = data_params(spec.params);
            let place = data_params(spec.params.take(k)).len() as int;
            assert(declared[place] == spec.params[k]);
        },
    }
}

/// Under a spec that the event matches, every field of the projection that
/// has a declared type holds a value of that type.
pub proof fn lemma_matched_projection_is_well_typed(event: EventModel, spec: SpecModel, i: int)
    requires
        conforms(event, spec),
        0 <= i < projection(event, spec).len(),
    ensures
        match projection(event, spec)[i].declared {
            Some(decl) => satisfies(projection(event, spec)[i].value, decl),
            None => true,
        },
{
    let count = spec.params.len() as int;
    let declared = declared_fields(event, spec, count);
    lemma_projection_order(event, spec);
    if i < declared.len() {
        assert(projection(event, spec).take(declared.len() as int)[i] == projection(event, spec)[i]);
        let from = lemma_declared_fields_come_from_params(event, spec, count, i);
        lemma_matched_binding_is_well_typed(event, spec, from);
    }
}

} // verus!
