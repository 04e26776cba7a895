//! The spec matcher: does an event have the shape that an event spec declares?
//!
//! Topics are a fixed-width addressing scheme, so their count and types must
//! line up exactly. A vector or mapping payload is a flexible one: a partial
//! overlap between what the event carries and what the spec declares is still
//! a match, as long as at least one declared parameter is found and every one
//! that is found has the declared type.

use vstd::prelude::*;

use crate::event::{Event, EventModel};
use crate::event_spec::{
    param_models, string_models, DataFormat, EventSpec, ParamLocation, ParamModel, SpecModel,
    SpecParam,
};
use crate::type_check::{satisfies, type_matches};
use crate::value::{
    entry_models, lemma_entry_models, lemma_value_models, value_models, EntryModel, MapEntry,
    Value, ValueModel,
};

verus! {

/// The text of a topic that can spell a name token: that of a symbol or of a
/// string. No other kind of topic spells anything.
pub open spec fn topic_text(topic: ValueModel) -> Option<Seq<char>> {
    match topic {
        ValueModel::Symbol(text) => Some(text),
        ValueModel::String(text) => Some(text),
        _ => None,
    }
}

/// The leading topics spell the prefix, token by token.
pub open spec fn prefix_matches(topics: Seq<ValueModel>, prefix: Seq<Seq<char>>) -> bool {
    &&& prefix.len() <= topics.len()
    &&& forall|i: int| 0 <= i < prefix.len() ==> topic_text(topics[i]) == Some(#[trigger] prefix[i])
}

/// The test "is declared at `location`".
pub open spec fn located_at(location: ParamLocation) -> spec_fn(ParamModel) -> bool {
    |p: ParamModel| p.location == location
}

/// The parameters declared at `location`, in declaration order.
pub open spec fn params_at(params: Seq<ParamModel>, location: ParamLocation) -> Seq<ParamModel> {
    params.filter(located_at(location))
}

/// The parameters read from the topic list, in declaration order.
pub open spec fn topic_params(params: Seq<ParamModel>) -> Seq<ParamModel> {
    params_at(params, ParamLocation::TopicList)
}

/// The parameters read from the payload, in declaration order.
pub open spec fn data_params(params: Seq<ParamModel>) -> Seq<ParamModel> {
    params_at(params, ParamLocation::Data)
}

/// After `skip` prefix topics there is exactly one topic per declared topic
/// parameter, and each has the declared type.
pub open spec fn topics_match(topics: Seq<ValueModel>, skip: int, declared: Seq<ParamModel>) -> bool {
    &&& topics.len() == skip + declared.len()
    &&& forall|i: int|
        0 <= i < declared.len() ==> satisfies(topics[skip + i], (#[trigger] declared[i]).type_)
}

/// The value that a mapping binds to `name`: that of the last entry whose key
/// is the symbol `name`. Entries with other kinds of key are passed over.
pub open spec fn lookup(entries: Seq<EntryModel>, name: Seq<char>) -> Option<ValueModel>
    decreases entries.len(),
{
    if entries.len() == 0 {
        None
    } else if entries.last().key == ValueModel::Symbol(name) {
        Some(entries.last().val)
    } else {
        lookup(entries.drop_last(), name)
    }
}

/// Single-value payload: the spec declares exactly one data parameter and the
/// payload has its type.
pub open spec fn single_value_matches(data: ValueModel, declared: Seq<ParamModel>) -> bool {
    declared.len() == 1 && satisfies(data, declared[0].type_)
}

/// Mapping payload: every data parameter that the entries name has the
/// declared type, and at least one is named. A parameter that no entry names
/// is passed over.
pub open spec fn entries_match(entries: Seq<EntryModel>, declared: Seq<ParamModel>) -> bool {
    &&& forall|j: int|
        0 <= j < declared.len() ==> match lookup(entries, (#[trigger] declared[j]).name) {
            Some(value) => satisfies(value, declared[j].type_),
            None => true,
        }
    &&& exists|j: int| 0 <= j < declared.len() && lookup(entries, (#[trigger] declared[j]).name) is Some
}

/// Vector payload: neither the items nor the data parameters are empty, and
/// on the positions that both have, each item has the declared type.
pub open spec fn items_match(items: Seq<ValueModel>, declared: Seq<ParamModel>) -> bool {
    &&& items.len() >= 1
    &&& declared.len() >= 1
    &&& forall|i: int|
        0 <= i < items.len() && i < declared.len() ==> satisfies(
            #[trigger] items[i],
            declared[i].type_,
        )
}

/// The payload has the shape that `format` asks of the data parameters.
pub open spec fn data_matches(data: ValueModel, declared: Seq<ParamModel>, format: DataFormat) -> bool {
    match format {
        DataFormat::SingleValue => single_value_matches(data, declared),
        DataFormat::Mapping => data matches ValueModel::Mapping(Some(entries)) && entries_match(
            entries,
            declared,
        ),
        DataFormat::Vec => data matches ValueModel::Vec(Some(items)) && items_match(items, declared),
    }
}

/// The event has the shape that the spec declares: its leading topics spell
/// the prefix, the remaining topics are exactly the topic parameters, and the
/// payload answers the data parameters in the spec's data format.
pub open spec fn conforms(event: EventModel, spec: SpecModel) -> bool {
    &&& prefix_matches(event.topics, spec.prefix_topics)
    &&& topics_match(event.topics, spec.prefix_topics.len() as int, topic_params(spec.params))
    &&& data_matches(event.data, data_params(spec.params), spec.data_format)
}

/// The models of a sequence of borrowed parameters, position by position.
pub open spec fn borrowed_param_models(params: Seq<&SpecParam>) -> Seq<ParamModel> {
    params.map_values(|p: &SpecParam| p@)
}

/// The model of an optional borrowed value.
pub open spec fn optional_value_model(value: Option<&Value>) -> Option<ValueModel> {
    match value {
        Some(v) => Some(v@),
        None => None,
    }
}

/// If `entries[at]` is keyed by the symbol `name` and no later entry is, the
/// mapping binds `name` to its value.
pub proof fn lemma_lookup_finds_last(entries: Seq<EntryModel>, name: Seq<char>, at: int)
    requires
        0 <= at < entries.len(),
        entries[at].key == ValueModel::Symbol(name),
        forall|j: int| at < j < entries.len() ==> (#[trigger] entries[j]).key != ValueModel::Symbol(name),
    ensures
        lookup(entries, name) == Some(entries[at].val),
    decreases entries.len(),
{
    if at < entries.len() - 1 {
        assert(entries.last() == entries[entries.len() - 1]);
        lemma_lookup_finds_last(entries.drop_last(), name, at);
    }
}

/// If no entry is keyed by the symbol `name`, the mapping binds nothing to it.
pub proof fn lemma_lookup_finds_nothing(entries: Seq<EntryModel>, name: Seq<char>)
    requires
        forall|j: int| 0 <= j < entries.len() ==> (#[trigger] entries[j]).key != ValueModel::Symbol(name),
    ensures
        lookup(entries, name) is None,
    decreases entries.len(),
{
    if entries.len() > 0 {
        assert(entries.last() == entries[entries.len() - 1]);
        lemma_lookup_finds_nothing(entries.drop_last(), name);
    }
}

/// Whatever a mapping binds to `name` is the value of one of its entries,
/// keyed by the symbol `name`.
pub proof fn lemma_lookup_is_an_entry(entries: Seq<EntryModel>, name: Seq<char>) -> (at: int)
    requires
        lookup(entries, name) is Some,
    ensures
        0 <= at < entries.len(),
        entries[at].key == ValueModel::Symbol(name),
        lookup(entries, name) == Some(entries[at].val),
    decreases entries.len(),
{
    if entries.last().key == ValueModel::Symbol(name) {
        entries.len() - 1
    } else {
        lemma_lookup_is_an_entry(entries.drop_last(), name)
    }
}

/// Whether `topic` spells the name token `name`.
fn topic_spells(topic: &Value, name: &String) -> (r: bool)
    ensures
        r == (topic_text(topic@) == Some(name@)),
{
    match topic {
        Value::Symbol(text) => *text == *name,
        Value::String(text) => *text == *name,
        _ => false,
    }
}

/// Whether the leading topics spell the prefix.
fn prefix_check(topics: &Vec<Value>, prefix: &Vec<String>) -> (r: bool)
    ensures
        r == prefix_matches(value_models(topics@), string_models(prefix@)),
{
    proof {
        lemma_value_models(topics@);
    }
    if topics.len() < prefix.len() {
        return false;
    }
    let mut i: usize = 0;
    while i < prefix.len()
        invariant
            i <= prefix.len() <= topics.len(),
            value_models(topics@).len() == topics@.len(),
            forall|j: int|
                0 <= j < topics@.len() ==> (#[trigger] value_models(topics@)[j]) == topics@[j]@,
            forall|j: int|
                0 <= j < i ==> topic_text(value_models(topics@)[j]) == Some(
                    #[trigger] string_models(prefix@)[j],
                ),
        decreases prefix.len() - i,
    {
        if !topic_spells(&topics[i], &prefix[i]) {
            assert(string_models(prefix@)[i as int] == prefix@[i as int]@);
            return false;
        }
        i += 1;
    }
    true
}

/// Splits the declared parameters by location, keeping declaration order.
pub(crate) fn partition_params<'a>(params: &'a Vec<SpecParam>) -> (r: (Vec<&'a SpecParam>, Vec<&'a SpecParam>))
    ensures
        borrowed_param_models(r.0@) == topic_params(param_models(params@)),
        borrowed_param_models(r.1@) == data_params(param_models(params@)),
{
    let mut in_topics: Vec<&'a SpecParam> = Vec::new();
    let mut in_data: Vec<&'a SpecParam> = Vec::new();
    let ghost all = param_models(params@);
    let mut i: usize = 0;
    proof {
        reveal(Seq::filter);
        assert(all.take(0) =~= Seq::<ParamModel>::empty());
        assert(borrowed_param_models(in_topics@) =~= topic_params(all.take(0)));
        assert(borrowed_param_models(in_data@) =~= data_params(all.take(0)));
    }
    while i < params.len()
        invariant
            i <= params.len(),
            all == param_models(params@),
            borrowed_param_models(in_topics@) == topic_params(all.take(i as int)),
            borrowed_param_models(in_data@) == data_params(all.take(i as int)),
        decreases params.len() - i,
    {
        let param = &params[i];
        proof {
            let before = all.take(i as int);
            assert(all.take(i + 1) =~= before.push(param@));
            before.lemma_filter_push(param@, located_at(ParamLocation::TopicList));
            before.lemma_filter_push(param@, located_at(ParamLocation::Data));
        }
        match param.location {
            ParamLocation::TopicList => {
                let ghost old_topics = in_topics@;
                in_topics.push(param);
                assert(borrowed_param_models(in_topics@) =~= borrowed_param_models(old_topics).push(
                    param@,
                ));
            },
            ParamLocation::Data => {
                let ghost old_data = in_data@;
                in_data.push(param);
                assert(borrowed_param_models(in_data@) =~= borrowed_param_models(old_data).push(
                    param@,
                ));
            },
        }
        i += 1;
    }
    assert(all.take(params@.len() as int) =~= all);
    (in_topics, in_data)
}

/// Whether each topic after the first `skip` has the type of the topic
/// parameter at its position.
fn topic_types_check(topics: &Vec<Value>, skip: usize, declared: &Vec<&SpecParam>) -> (r: bool)
    requires
        topics@.len() == skip + declared@.len(),
    ensures
        r == topics_match(value_models(topics@), skip as int, borrowed_param_models(declared@)),
{
    proof {
        lemma_value_models(topics@);
    }
    let count = topics.len();
    let mut i: usize = 0;
    while i < declared.len()
        invariant
            i <= declared.len(),
            count == topics@.len(),
            topics@.len() == skip + declared@.len(),
            value_models(topics@).len() == topics@.len(),
            forall|j: int|
                0 <= j < topics@.len() ==> (#[trigger] value_models(topics@)[j]) == topics@[j]@,
            forall|j: int|
                0 <= j < i ==> satisfies(
                    value_models(topics@)[skip + j],
                    (#[trigger] borrowed_param_models(declared@)[j]).type_,
                ),
        decreases declared.len() - i,
    {
        assert(skip + i < count);
        if !type_matches(&topics[skip + i], &declared[i].type_) {
            assert(borrowed_param_models(declared@)[i as int] == declared@[i as int]@);
            assert(value_models(topics@)[skip + i] == topics@[skip + i]@);
            return false;
        }
        i += 1;
    }
    true
}

/// The value that the entries bind to `name`, if any.
pub fn find_entry<'a>(entries: &'a Vec<MapEntry>, name: &String) -> (r: Option<&'a Value>)
    ensures
        optional_value_model(r) == lookup(entry_models(entries@), name@),
{
    proof {
        lemma_entry_models(entries@);
    }
    let mut i: usize = entries.len();
    while i > 0
        invariant
            i <= entries.len(),
            entry_models(entries@).len() == entries@.len(),
            forall|j: int|
                0 <= j < entries@.len() ==> (#[trigger] entry_models(entries@)[j]) == entries@[j]@,
            forall|j: int|
                i <= j < entries@.len() ==> (#[trigger] entry_models(entries@)[j]).key
                    != ValueModel::Symbol(name@),
        decreases i,
    {
        i -= 1;
        let entry = &entries[i];
        let hit = match &entry.key {
            Value::Symbol(key) => *key == *name,
            _ => false,
        };
        if hit {
            proof {
                lemma_lookup_finds_last(entry_models(entries@), name@, i as int);
            }
            return Some(&entry.val);
        }
    }
    proof {
        lemma_lookup_finds_nothing(entry_models(entries@), name@);
    }
    None
}

/// Whether the entries answer the data parameters of a mapping-format spec.
fn mapping_check(entries: &Vec<MapEntry>, declared: &Vec<&SpecParam>) -> (r: bool)
    ensures
        r == entries_match(entry_models(entries@), borrowed_param_models(declared@)),
{
    let ghost model = entry_models(entries@);
    let ghost params = borrowed_param_models(declared@);
    let mut found_any = false;
    let ghost mut witness: int = 0;
    let mut j: usize = 0;
    while j < declared.len()
        invariant
            j <= declared.len(),
            model == entry_models(entries@),
            params == borrowed_param_models(declared@),
            forall|k: int|
                0 <= k < j ==> match lookup(model, (#[trigger] params[k]).name) {
                    Some(value) => satisfies(value, params[k].type_),
                    None => true,
                },
            found_any ==> 0 <= witness < j && lookup(model, params[witness].name) is Some,
            !found_any ==> forall|k: int| 0 <= k < j ==> lookup(model, (#[trigger] params[k]).name) is None,
        decreases declared.len() - j,
    {
        let param = declared[j];
        assert(params[j as int] == param@);
        match find_entry(entries, &param.name) {
            Some(value) => {
                if !type_matches(value, &param.type_) {
                    return false;
                }
                found_any = true;
                proof {
                    witness = j as int;
                }
            },
            None => {},
        }
        j += 1;
    }
    found_any
}

/// Whether the items answer the data parameters of a vector-format spec.
fn vec_check(items: &Vec<Value>, declared: &Vec<&SpecParam>) -> (r: bool)
    ensures
        r == items_match(value_models(items@), borrowed_param_models(declared@)),
{
    proof {
        lemma_value_models(items@);
    }
    if items.len() == 0 || declared.len() == 0 {
        return false;
    }
    let compared = if items.len() < declared.len() {
        items.len()
    } else {
        declared.len()
    };
    let mut i: usize = 0;
    while i < compared
        invariant
            i <= compared,
            compared <= items.len(),
            compared <= declared.len(),
            compared == items.len() || compared == declared.len(),
            value_models(items@).len() == items@.len(),
            forall|k: int| 0 <= k < items@.len() ==> (#[trigger] value_models(items@)[k]) == items@[k]@,
            forall|k: int|
                0 <= k < i ==> satisfies(
                    #[trigger] value_models(items@)[k],
                    borrowed_param_models(declared@)[k].type_,
                ),
        decreases compared - i,
    {
        if !type_matches(&items[i], &declared[i].type_) {
            assert(borrowed_param_models(declared@)[i as int] == declared@[i as int]@);
            assert(value_models(items@)[i as int] == items@[i as int]@);
            return false;
        }
        i += 1;
    }
    true
}

/// Whether the payload answers the data parameters in the given format.
fn data_check(data: &Value, declared: &Vec<&SpecParam>, format: DataFormat) -> (r: bool)
    ensures
        r == data_matches(data@, borrowed_param_models(declared@), format),
{
    match format {
        DataFormat::SingleValue => {
            if declared.len() != 1 {
                return false;
            }
            assert(borrowed_param_models(declared@)[0] == declared@[0]@);
            type_matches(data, &declared[0].type_)
        },
        DataFormat::Mapping => match data {
            Value::Mapping(Some(entries)) => mapping_check(entries, declared),
            _ => false,
        },
        DataFormat::Vec => match data {
            Value::Vec(Some(items)) => vec_check(items, declared),
            _ => false,
        },
    }
}

/// Decides whether `event` has the shape that `spec` declares.
///
/// Never fails: a spec whose data format does not fit its parameters, a type
/// mismatch and a payload of the wrong kind all come out as `false`.
pub fn event_matches_spec(event: &Event, spec: &EventSpec) -> (r: bool)
    ensures
        r == conforms(event@, spec@),
{
    if !prefix_check(&event.topics, &spec.prefix_topics) {
        return false;
    }
    let (in_topics, in_data) = partition_params(&spec.params);
    proof {
        lemma_value_models(event.topics@);
    }
    if event.topics.len() - spec.prefix_topics.len() != in_topics.len() {
        return false;
    }
    if !topic_types_check(&event.topics, spec.prefix_topics.len(), &in_topics) {
        return false;
    }
    data_check(&event.data, &in_data, spec.data_format)
}

/// A matching event has exactly one topic per prefix token and one per topic
/// parameter: no more, no fewer.
pub proof fn lemma_match_fixes_topic_count(event: EventModel, spec: SpecModel)
    requires
        conforms(event, spec),
    ensures
        event.topics.len() == spec.prefix_topics.len() + topic_params(spec.params).len(),
{
}

/// A mapping-format match rests on an entry of the payload: one keyed by a
/// symbol that names a data parameter, with a value of that parameter's type.
/// Where the payload has no such entry the event does not match, whatever
/// else it holds.
pub proof fn lemma_mapping_match_has_named_entry(event: EventModel, spec: SpecModel)
    requires
        conforms(event, spec),
        spec.data_format is Mapping,
    ensures
        event.data matches ValueModel::Mapping(Some(entries)) && exists|i: int, j: int|
            0 <= i < entries.len() && 0 <= j < data_params(spec.params).len() && (
            #[trigger] entries[i]).key == ValueModel::Symbol(
                (#[trigger] data_params(spec.params)[j]).name,
            ) && satisfies(entries[i].val, data_params(spec.params)[j].type_),
{
    let entries = event.data->Mapping_0->Some_0;
    let declared = data_params(spec.params);
    let j = choose|j: int| 0 <= j < declared.len() && lookup(entries, (#[trigger] declared[j]).name) is Some;
    let i = lemma_lookup_is_an_entry(entries, declared[j].name);
    assert(entries[i].key == ValueModel::Symbol(declared[j].name));
    assert(satisfies(entries[i].val, declared[j].type_));
}

/// A vector-format match compares the positions that the payload and the data
/// parameters have in common: there is at least one, and on each the item has
/// the declared type.
pub proof fn lemma_vec_match_compares_common_positions(event: EventModel, spec: SpecModel)
    requires
        conforms(event, spec),
        spec.data_format is Vec,
    ensures
        event.data matches ValueModel::Vec(Some(items)) && {
            let declared = data_params(spec.params);
            let compared = if items.len() <= declared.len() {
                items.len()
            } else {
                declared.len()
            };
            &&& compared >= 1
            &&& forall|i: int| 0 <= i < compared ==> satisfies(#[trigger] items[i], declared[i].type_)
        },
{
}

/// Items beyond the last data parameter never make a vector payload fail.
pub proof fn lemma_trailing_items_are_ignored(
    items: Seq<ValueModel>,
    more: Seq<ValueModel>,
    declared: Seq<ParamModel>,
)
    requires
        items_match(items, declared),
        declared.len() <= items.len(),
    ensures
        items_match(items + more, declared),
{
    assert forall|i: int| 0 <= i < (items + more).len() && i < declared.len() implies satisfies(
        #[trigger] (items + more)[i],
        declared[i].type_,
    ) by {
        assert((items + more)[i] == items[i]);
    }
}

/// Data parameters beyond the last item never make a vector payload fail.
pub proof fn lemma_trailing_params_are_ignored(
    items: Seq<ValueModel>,
    declared: Seq<ParamModel>,
    more: Seq<ParamModel>,
)
    requires
        items_match(items, declared),
        items.len() <= declared.len(),
    ensures
        items_match(items, declared + more),
{
    assert forall|i: int| 0 <= i < items.len() && i < (declared + more).len() implies satisfies(
        #[trigger] items[i],
        (declared + more)[i].type_,
    ) by {
        assert((declared + more)[i] == declared[i]);
    }
}

} // verus!
