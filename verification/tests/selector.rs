use event_matcher::{
    event_matches_spec, select, select_index, DataFormat, Event, EventSpec, ParamLocation,
    SpecParam, TypeDecl, Value,
};

fn transfer_event() -> Event {
    Event {
        contract_id: Some("CABC".to_string()),
        topics: vec![Value::Symbol("transfer".to_string()), Value::Address("GABC".to_string())],
        data: Value::I64(500),
    }
}

fn named_spec(name: &str, prefix: &str, data_type: TypeDecl) -> EventSpec {
    EventSpec {
        name: name.to_string(),
        prefix_topics: vec![prefix.to_string()],
        params: vec![
            SpecParam {
                name: "to".to_string(),
                type_: TypeDecl::Address,
                location: ParamLocation::TopicList,
            },
            SpecParam { name: "amount".to_string(), type_: data_type, location: ParamLocation::Data },
        ],
        data_format: DataFormat::SingleValue,
    }
}

#[test]
fn select_returns_the_spec_that_matches() {
    let specs = vec![
        named_spec("deposit", "deposit", TypeDecl::I64),
        named_spec("transfer", "transfer", TypeDecl::I64),
        named_spec("burn", "burn", TypeDecl::I64),
    ];
    let e = transfer_event();
    assert_eq!(select_index(&e, &specs), Some(1));
    assert_eq!(select(&e, &specs).map(|s| s.name.as_str()), Some("transfer"));
    assert!(std::ptr::eq(select(&e, &specs).unwrap(), &specs[1]));
}

#[test]
fn select_returns_nothing_where_nothing_matches() {
    let specs = vec![
        named_spec("deposit", "deposit", TypeDecl::I64),
        named_spec("wrong type", "transfer", TypeDecl::U64),
    ];
    let e = transfer_event();
    assert_eq!(select_index(&e, &specs), None);
    assert_eq!(select(&e, &specs), None);
}

#[test]
fn select_from_no_specs_returns_nothing() {
    let e = transfer_event();
    assert_eq!(select_index(&e, &vec![]), None);
    assert_eq!(select(&e, &vec![]), None);
}

#[test]
fn select_prefers_the_earlier_of_two_matches() {
    let strict = named_spec("strict", "transfer", TypeDecl::I64);
    let lenient = named_spec("lenient", "transfer", TypeDecl::Option(Box::new(TypeDecl::I64)));
    let e = transfer_event();
    assert!(event_matches_spec(&e, &strict));
    assert!(event_matches_spec(&e, &lenient));
    let specs = vec![strict.clone(), lenient.clone()];
    assert_eq!(select(&e, &specs).map(|s| s.name.as_str()), Some("strict"));
    let specs = vec![lenient, strict];
    assert_eq!(select(&e, &specs).map(|s| s.name.as_str()), Some("lenient"));
}

#[test]
fn reordering_specs_that_do_not_match_changes_nothing() {
    let a = named_spec("a", "deposit", TypeDecl::I64);
    let b = named_spec("b", "burn", TypeDecl::I64);
    let c = named_spec("c", "transfer", TypeDecl::U32);
    let hit = named_spec("hit", "transfer", TypeDecl::I64);
    let later = named_spec("later", "transfer", TypeDecl::Option(Box::new(TypeDecl::I64)));
    let e = transfer_event();
    let orders: Vec<Vec<&EventSpec>> = vec![
        vec![&a, &b, &c, &hit, &later],
        vec![&c, &a, &hit, &b, &later],
        vec![&hit, &c, &b, &later, &a],
        vec![&b, &hit, &later, &a, &c],
        vec![&hit, &later],
    ];
    for order in orders {
        let specs: Vec<EventSpec> = order.into_iter().cloned().collect();
        assert_eq!(select(&e, &specs).map(|s| s.name.as_str()), Some("hit"));
        let at = select_index(&e, &specs).unwrap();
        assert_eq!(specs[at].name, "hit");
        assert!(specs[..at].iter().all(|s| !event_matches_spec(&e, s)));
    }
}

#[test]
fn select_index_is_the_least_matching_index() {
    let e = transfer_event();
    let miss = named_spec("miss", "deposit", TypeDecl::I64);
    let hit = named_spec("hit", "transfer", TypeDecl::I64);
    for first in 0..4 {
        let mut specs = vec![miss.clone(), miss.clone(), miss.clone(), miss.clone()];
        for slot in specs.iter_mut().skip(first) {
            *slot = hit.clone();
        }
        assert_eq!(select_index(&e, &specs), Some(first));
    }
}
