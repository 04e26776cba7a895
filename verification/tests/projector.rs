use event_matcher::{
    event_matches_spec, project, DataFormat, Event, EventSpec, Field, MapEntry, ParamLocation,
    SpecParam, TypeDecl, Value,
};

fn symbol(text: &str) -> Value {
    Value::Symbol(text.to_string())
}

fn address(text: &str) -> Value {
    Value::Address(text.to_string())
}

fn entry(key: &str, val: Value) -> MapEntry {
    MapEntry { key: symbol(key), val }
}

fn topic_param(name: &str, type_: TypeDecl) -> SpecParam {
    SpecParam { name: name.to_string(), type_, location: ParamLocation::TopicList }
}

fn data_param(name: &str, type_: TypeDecl) -> SpecParam {
    SpecParam { name: name.to_string(), type_, location: ParamLocation::Data }
}

fn event(topics: Vec<Value>, data: Value) -> Event {
    Event { contract_id: None, topics, data }
}

fn spec(prefix: &[&str], params: Vec<SpecParam>, data_format: DataFormat) -> EventSpec {
    EventSpec {
        name: "spec".to_string(),
        prefix_topics: prefix.iter().map(|s| s.to_string()).collect(),
        params,
        data_format,
    }
}

/// The projection as owned (name, declared type, value) triples.
fn triples(fields: &[Field]) -> Vec<(String, Option<TypeDecl>, Value)> {
    fields.iter().map(|f| (f.name.clone(), f.declared.cloned(), f.value.clone())).collect()
}

fn declared(name: &str, type_: TypeDecl, value: Value) -> (String, Option<TypeDecl>, Value) {
    (name.to_string(), Some(type_), value)
}

fn undeclared(name: &str, value: Value) -> (String, Option<TypeDecl>, Value) {
    (name.to_string(), None, value)
}

#[test]
fn single_value_projection() {
    let e = event(vec![symbol("transfer"), address("GABC")], Value::I64(500));
    let s = spec(
        &["transfer"],
        vec![topic_param("to", TypeDecl::Address), data_param("amount", TypeDecl::I64)],
        DataFormat::SingleValue,
    );
    assert!(event_matches_spec(&e, &s));
    assert_eq!(
        triples(&project(&e, &s)),
        vec![
            declared("to", TypeDecl::Address, address("GABC")),
            declared("amount", TypeDecl::I64, Value::I64(500)),
        ]
    );
}

#[test]
fn projection_follows_declaration_order() {
    let e = event(vec![symbol("transfer"), address("G1"), address("G2")], Value::I64(500));
    let s = spec(
        &["transfer"],
        vec![
            data_param("amount", TypeDecl::I64),
            topic_param("from", TypeDecl::Address),
            topic_param("to", TypeDecl::Address),
        ],
        DataFormat::SingleValue,
    );
    assert_eq!(
        triples(&project(&e, &s)),
        vec![
            declared("amount", TypeDecl::I64, Value::I64(500)),
            declared("from", TypeDecl::Address, address("G1")),
            declared("to", TypeDecl::Address, address("G2")),
        ]
    );
}

#[test]
fn mapping_projection_appends_leftover_entries() {
    let data = Value::Mapping(Some(vec![entry("from", address("G1")), entry("extra", Value::U32(9))]));
    let e = event(vec![symbol("mint")], data);
    let s = spec(&["mint"], vec![data_param("from", TypeDecl::Address)], DataFormat::Mapping);
    assert!(event_matches_spec(&e, &s));
    assert_eq!(
        triples(&project(&e, &s)),
        vec![declared("from", TypeDecl::Address, address("G1")), undeclared("extra", Value::U32(9))]
    );
}

#[test]
fn leftover_entries_keep_the_order_of_the_event() {
    let data = Value::Mapping(Some(vec![
        entry("z", Value::U32(1)),
        entry("amount", Value::I64(5)),
        entry("a", Value::U32(2)),
        entry("m", Value::U32(3)),
    ]));
    let e = event(vec![symbol("mint")], data);
    let s = spec(
        &["mint"],
        vec![data_param("missing", TypeDecl::U32), data_param("amount", TypeDecl::I64)],
        DataFormat::Mapping,
    );
    assert_eq!(
        triples(&project(&e, &s)),
        vec![
            declared("amount", TypeDecl::I64, Value::I64(5)),
            undeclared("z", Value::U32(1)),
            undeclared("a", Value::U32(2)),
            undeclared("m", Value::U32(3)),
        ]
    );
}

#[test]
fn leftover_pass_skips_keys_that_are_not_symbols() {
    let data = Value::Mapping(Some(vec![
        MapEntry { key: Value::U32(7), val: Value::U32(1) },
        entry("from", address("G1")),
        MapEntry { key: Value::String("text".to_string()), val: Value::U32(2) },
    ]));
    let e = event(vec![symbol("mint")], data);
    let s = spec(&["mint"], vec![], DataFormat::Mapping);
    assert_eq!(triples(&project(&e, &s)), vec![undeclared("from", address("G1"))]);
}

#[test]
fn leftover_pass_skips_names_that_a_topic_param_took() {
    let data = Value::Mapping(Some(vec![entry("to", Value::U32(1)), entry("memo", Value::U32(2))]));
    let e = event(vec![symbol("mint"), address("G1")], data);
    let s = spec(&["mint"], vec![topic_param("to", TypeDecl::Address)], DataFormat::Mapping);
    assert_eq!(
        triples(&project(&e, &s)),
        vec![declared("to", TypeDecl::Address, address("G1")), undeclared("memo", Value::U32(2))]
    );
}

#[test]
fn repeated_entry_key_is_projected_once_with_its_last_value() {
    let data = Value::Mapping(Some(vec![
        entry("a", Value::U32(1)),
        entry("b", Value::U32(2)),
        entry("a", Value::U32(3)),
    ]));
    let e = event(vec![symbol("mint")], data);
    let s = spec(&["mint"], vec![], DataFormat::Mapping);
    assert_eq!(
        triples(&project(&e, &s)),
        vec![undeclared("a", Value::U32(3)), undeclared("b", Value::U32(2))]
    );
    let s = spec(&["mint"], vec![data_param("a", TypeDecl::U32)], DataFormat::Mapping);
    assert_eq!(
        triples(&project(&e, &s)),
        vec![declared("a", TypeDecl::U32, Value::U32(3)), undeclared("b", Value::U32(2))]
    );
}

#[test]
fn leftover_entries_only_under_the_mapping_format() {
    let data = Value::Mapping(Some(vec![entry("from", address("G1"))]));
    let e = event(vec![symbol("mint")], data.clone());
    let single = spec(
        &["mint"],
        vec![data_param("all", TypeDecl::Mapping(Box::new(TypeDecl::Symbol), Box::new(TypeDecl::Address)))],
        DataFormat::SingleValue,
    );
    let fields = project(&e, &single);
    assert_eq!(fields.len(), 1);
    assert_eq!(fields[0].name, "all");
    assert_eq!(*fields[0].value, data);
    let as_vec = spec(&["mint"], vec![data_param("a", TypeDecl::U32)], DataFormat::Vec);
    assert!(project(&e, &as_vec).is_empty());
}

#[test]
fn vec_projection_takes_items_by_position() {
    let data = Value::Vec(Some(vec![Value::U32(1), Value::U32(2), Value::U32(3)]));
    let e = event(vec![symbol("batch")], data);
    let s = spec(
        &["batch"],
        vec![data_param("a", TypeDecl::U32), data_param("b", TypeDecl::U32)],
        DataFormat::Vec,
    );
    assert!(event_matches_spec(&e, &s));
    assert_eq!(
        triples(&project(&e, &s)),
        vec![declared("a", TypeDecl::U32, Value::U32(1)), declared("b", TypeDecl::U32, Value::U32(2))]
    );
}

#[test]
fn vec_projection_leaves_out_params_beyond_the_items() {
    let e = event(vec![symbol("batch"), address("G1")], Value::Vec(Some(vec![Value::U32(1)])));
    let s = spec(
        &["batch"],
        vec![
            data_param("a", TypeDecl::U32),
            topic_param("who", TypeDecl::Address),
            data_param("b", TypeDecl::U32),
            data_param("c", TypeDecl::U32),
        ],
        DataFormat::Vec,
    );
    assert_eq!(
        triples(&project(&e, &s)),
        vec![declared("a", TypeDecl::U32, Value::U32(1)), declared("who", TypeDecl::Address, address("G1"))]
    );
}

#[test]
fn single_value_gives_every_data_param_the_whole_payload() {
    let e = event(vec![symbol("x")], Value::I64(5));
    let s = spec(
        &["x"],
        vec![data_param("a", TypeDecl::I64), data_param("b", TypeDecl::U32)],
        DataFormat::SingleValue,
    );
    assert!(!event_matches_spec(&e, &s));
    assert_eq!(
        triples(&project(&e, &s)),
        vec![declared("a", TypeDecl::I64, Value::I64(5)), declared("b", TypeDecl::U32, Value::I64(5))]
    );
}

#[test]
fn projection_of_an_event_that_does_not_match_is_partial() {
    // One topic short, and the payload is no vector.
    let e = event(vec![symbol("transfer"), address("G1")], Value::U32(1));
    let s = spec(
        &["transfer"],
        vec![
            topic_param("from", TypeDecl::Address),
            topic_param("to", TypeDecl::Address),
            data_param("amount", TypeDecl::I64),
        ],
        DataFormat::Vec,
    );
    assert!(!event_matches_spec(&e, &s));
    assert_eq!(triples(&project(&e, &s)), vec![declared("from", TypeDecl::Address, address("G1"))]);
}

#[test]
fn projection_with_a_prefix_longer_than_the_topics_reads_no_topic() {
    let e = event(vec![symbol("a")], Value::Void);
    let s = spec(&["a", "b", "c"], vec![topic_param("t", TypeDecl::U32)], DataFormat::SingleValue);
    assert!(project(&e, &s).is_empty());
}

#[test]
fn projection_reads_absent_containers_as_nothing() {
    let params = vec![data_param("a", TypeDecl::U32)];
    let absent_vec = event(vec![], Value::Vec(None));
    assert!(project(&absent_vec, &spec(&[], params.clone(), DataFormat::Vec)).is_empty());
    let absent_mapping = event(vec![], Value::Mapping(None));
    assert!(project(&absent_mapping, &spec(&[], params, DataFormat::Mapping)).is_empty());
}

#[test]
fn repeated_param_name_keeps_its_first_place_and_last_value() {
    let e = event(vec![symbol("x"), Value::U32(1), Value::U32(2)], Value::I64(3));
    let s = spec(
        &["x"],
        vec![
            topic_param("a", TypeDecl::U32),
            topic_param("b", TypeDecl::U32),
            data_param("a", TypeDecl::I64),
        ],
        DataFormat::SingleValue,
    );
    assert_eq!(
        triples(&project(&e, &s)),
        vec![declared("a", TypeDecl::I64, Value::I64(3)), declared("b", TypeDecl::U32, Value::U32(2))]
    );
}

#[test]
fn projection_names_are_distinct() {
    let data = Value::Mapping(Some(vec![
        entry("a", Value::U32(1)),
        entry("b", Value::U32(2)),
        entry("a", Value::U32(3)),
        entry("c", Value::U32(4)),
    ]));
    let e = event(vec![symbol("x"), Value::U32(9)], data);
    let s = spec(
        &["x"],
        vec![
            topic_param("c", TypeDecl::U32),
            data_param("a", TypeDecl::U32),
            data_param("a", TypeDecl::U32),
        ],
        DataFormat::Mapping,
    );
    let fields = project(&e, &s);
    let names: Vec<&str> = fields.iter().map(|f| f.name.as_str()).collect();
    assert_eq!(names, vec!["c", "a", "b"]);
}

#[test]
fn projection_borrows_the_values_of_the_event() {
    let e = event(vec![symbol("x"), Value::U32(1)], Value::I64(3));
    let s = spec(
        &["x"],
        vec![topic_param("t", TypeDecl::U32), data_param("d", TypeDecl::I64)],
        DataFormat::SingleValue,
    );
    let fields = project(&e, &s);
    assert!(std::ptr::eq(fields[0].value, &e.topics[1]));
    assert!(std::ptr::eq(fields[1].value, &e.data));
    assert!(std::ptr::eq(fields[0].name, &s.params[0].name));
    assert!(std::ptr::eq(fields[1].declared.unwrap(), &s.params[1].type_));
}
