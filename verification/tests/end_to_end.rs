use event_matcher::{
    event_matches_spec, project, select, DataFormat, Event, EventSpec, MapEntry, ParamLocation,
    SpecParam, TypeDecl, Value,
};

fn transfer_event() -> Event {
    Event {
        contract_id: None,
        topics: vec![Value::Symbol("transfer".to_string()), Value::Address("GABC...".to_string())],
        data: Value::I64(500),
    }
}

fn transfer_spec(prefix: &str) -> EventSpec {
    EventSpec {
        name: "transfer".to_string(),
        prefix_topics: vec![prefix.to_string()],
        params: vec![
            SpecParam {
                name: "to".to_string(),
                type_: TypeDecl::Address,
                location: ParamLocation::TopicList,
            },
            SpecParam {
                name: "amount".to_string(),
                type_: TypeDecl::I64,
                location: ParamLocation::Data,
            },
        ],
        data_format: DataFormat::SingleValue,
    }
}

#[test]
fn transfer_event_matches_and_projects() {
    let event = transfer_event();
    let spec = transfer_spec("transfer");
    assert!(event_matches_spec(&event, &spec));
    let fields = project(&event, &spec);
    assert_eq!(fields.len(), 2);
    assert_eq!(fields[0].name, "to");
    assert_eq!(fields[0].declared, Some(&TypeDecl::Address));
    assert_eq!(*fields[0].value, Value::Address("GABC...".to_string()));
    assert_eq!(fields[1].name, "amount");
    assert_eq!(fields[1].declared, Some(&TypeDecl::I64));
    assert_eq!(*fields[1].value, Value::I64(500));
}

#[test]
fn transfer_event_under_another_prefix_is_not_selected() {
    let event = transfer_event();
    let spec = transfer_spec("deposit");
    assert!(!event_matches_spec(&event, &spec));
    assert_eq!(select(&event, &vec![spec]), None);
}

#[test]
fn mapping_event_with_an_extra_entry_matches_and_projects() {
    let event = Event {
        contract_id: None,
        topics: vec![],
        data: Value::Mapping(Some(vec![
            MapEntry { key: Value::Symbol("from".to_string()), val: Value::Address("G1".to_string()) },
            MapEntry { key: Value::Symbol("extra".to_string()), val: Value::U32(9) },
        ])),
    };
    let spec = EventSpec {
        name: "mint".to_string(),
        prefix_topics: vec![],
        params: vec![SpecParam {
            name: "from".to_string(),
            type_: TypeDecl::Address,
            location: ParamLocation::Data,
        }],
        data_format: DataFormat::Mapping,
    };
    assert!(event_matches_spec(&event, &spec));
    let fields = project(&event, &spec);
    assert_eq!(fields.len(), 2);
    assert_eq!(fields[0].name, "from");
    assert_eq!(fields[0].declared, Some(&TypeDecl::Address));
    assert_eq!(*fields[0].value, Value::Address("G1".to_string()));
    assert_eq!(fields[1].name, "extra");
    assert_eq!(fields[1].declared, None);
    assert_eq!(*fields[1].value, Value::U32(9));
}

#[test]
fn vec_event_with_more_items_than_params_matches_and_projects() {
    let event = Event {
        contract_id: None,
        topics: vec![],
        data: Value::Vec(Some(vec![Value::U32(1), Value::U32(2), Value::U32(3)])),
    };
    let spec = EventSpec {
        name: "batch".to_string(),
        prefix_topics: vec![],
        params: vec![
            SpecParam { name: "first".to_string(), type_: TypeDecl::U32, location: ParamLocation::Data },
            SpecParam { name: "second".to_string(), type_: TypeDecl::U32, location: ParamLocation::Data },
        ],
        data_format: DataFormat::Vec,
    };
    assert!(event_matches_spec(&event, &spec));
    let fields = project(&event, &spec);
    assert_eq!(fields.len(), 2);
    assert_eq!(fields[0].name, "first");
    assert_eq!(*fields[0].value, Value::U32(1));
    assert_eq!(fields[1].name, "second");
    assert_eq!(*fields[1].value, Value::U32(2));
}
