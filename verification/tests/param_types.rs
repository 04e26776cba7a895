use event_matcher::{
    type_to_value_kind, value_kind, DataFormat, Event, EventSpec, MapEntry, ParamLocation,
    ParamTypes, SpecParam, TypeDecl, Value, ValueKind,
};

fn param(name: &str, type_: TypeDecl, location: ParamLocation) -> SpecParam {
    SpecParam { name: name.to_string(), type_, location }
}

fn spec(prefix: &[&str], params: Vec<SpecParam>, data_format: DataFormat) -> EventSpec {
    EventSpec {
        name: "spec".to_string(),
        prefix_topics: prefix.iter().map(|s| s.to_string()).collect(),
        params,
        data_format,
    }
}

#[test]
fn value_kind_is_the_variant() {
    assert_eq!(value_kind(&Value::Bool(false)), ValueKind::Bool);
    assert_eq!(value_kind(&Value::Void), ValueKind::Void);
    assert_eq!(value_kind(&Value::Error { category: 1, code: 2 }), ValueKind::Error);
    assert_eq!(value_kind(&Value::U32(1)), ValueKind::U32);
    assert_eq!(value_kind(&Value::I32(1)), ValueKind::I32);
    assert_eq!(value_kind(&Value::U64(1)), ValueKind::U64);
    assert_eq!(value_kind(&Value::I64(1)), ValueKind::I64);
    assert_eq!(value_kind(&Value::U128(1)), ValueKind::U128);
    assert_eq!(value_kind(&Value::I128(1)), ValueKind::I128);
    assert_eq!(value_kind(&Value::U256(1, 2)), ValueKind::U256);
    assert_eq!(value_kind(&Value::I256(1, 2)), ValueKind::I256);
    assert_eq!(value_kind(&Value::Address("G".to_string())), ValueKind::Address);
    assert_eq!(value_kind(&Value::Symbol("s".to_string())), ValueKind::Symbol);
    assert_eq!(value_kind(&Value::String("s".to_string())), ValueKind::String);
    assert_eq!(value_kind(&Value::Bytes(vec![])), ValueKind::Bytes);
    assert_eq!(value_kind(&Value::Vec(None)), ValueKind::Vec);
    assert_eq!(value_kind(&Value::Vec(Some(vec![]))), ValueKind::Vec);
    assert_eq!(value_kind(&Value::Mapping(None)), ValueKind::Mapping);
    assert_eq!(value_kind(&Value::Mapping(Some(vec![]))), ValueKind::Mapping);
}

#[test]
fn type_to_value_kind_table() {
    assert_eq!(type_to_value_kind(&TypeDecl::U32), ValueKind::U32);
    assert_eq!(type_to_value_kind(&TypeDecl::U64), ValueKind::U64);
    assert_eq!(type_to_value_kind(&TypeDecl::I128), ValueKind::I128);
    assert_eq!(type_to_value_kind(&TypeDecl::String), ValueKind::String);
    assert_eq!(type_to_value_kind(&TypeDecl::Symbol), ValueKind::Symbol);
    assert_eq!(type_to_value_kind(&TypeDecl::Address), ValueKind::Address);
    assert_eq!(type_to_value_kind(&TypeDecl::Vec(Box::new(TypeDecl::Bool))), ValueKind::Vec);
    assert_eq!(
        type_to_value_kind(&TypeDecl::Mapping(Box::new(TypeDecl::Symbol), Box::new(TypeDecl::Bool))),
        ValueKind::Mapping
    );
}

#[test]
fn event_param_types_are_topic_kinds_then_payload_kind() {
    let e = Event {
        contract_id: None,
        topics: vec![
            Value::Symbol("transfer".to_string()),
            Value::Address("G1".to_string()),
            Value::U32(1),
        ],
        data: Value::Mapping(Some(vec![MapEntry { key: Value::U32(1), val: Value::Void }])),
    };
    assert_eq!(
        e.param_types(),
        vec![ValueKind::Symbol, ValueKind::Address, ValueKind::U32, ValueKind::Mapping]
    );
    let bare = Event { contract_id: None, topics: vec![], data: Value::Void };
    assert_eq!(bare.param_types(), vec![ValueKind::Void]);
}

#[test]
fn spec_param_types_under_the_single_value_format() {
    let s = spec(
        &["transfer", "v1"],
        vec![
            param("amount", TypeDecl::I128, ParamLocation::Data),
            param("from", TypeDecl::Address, ParamLocation::TopicList),
            param("ignored", TypeDecl::Bool, ParamLocation::Data),
            param("memo", TypeDecl::U64, ParamLocation::TopicList),
        ],
        DataFormat::SingleValue,
    );
    assert_eq!(
        s.param_types(),
        vec![
            ValueKind::Symbol,
            ValueKind::Symbol,
            ValueKind::Address,
            ValueKind::U64,
            ValueKind::I128,
        ]
    );
}

#[test]
fn spec_param_types_without_data_params_end_in_void() {
    let s = spec(
        &["ping"],
        vec![param("who", TypeDecl::Address, ParamLocation::TopicList)],
        DataFormat::SingleValue,
    );
    assert_eq!(s.param_types(), vec![ValueKind::Symbol, ValueKind::Address, ValueKind::Void]);
    let empty = spec(&[], vec![], DataFormat::SingleValue);
    assert_eq!(empty.param_types(), vec![ValueKind::Void]);
}

#[test]
fn spec_param_types_under_the_container_formats() {
    let params = vec![
        param("a", TypeDecl::Bool, ParamLocation::Data),
        param("who", TypeDecl::Symbol, ParamLocation::TopicList),
    ];
    let as_vec = spec(&["x"], params.clone(), DataFormat::Vec);
    assert_eq!(as_vec.param_types(), vec![ValueKind::Symbol, ValueKind::Symbol, ValueKind::Vec]);
    let as_mapping = spec(&["x"], params, DataFormat::Mapping);
    assert_eq!(
        as_mapping.param_types(),
        vec![ValueKind::Symbol, ValueKind::Symbol, ValueKind::Mapping]
    );
}
