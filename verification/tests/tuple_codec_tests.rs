use plexspaces_services::tuple_codec::{
    convert_internal_field_to_proto, convert_proto_field_to_internal, convert_proto_template_to_pattern,
    convert_proto_tuple_to_internal, tuplespace_error_to_status, PatternField, TupleField, TupleSpaceFailure,
    TupleStatus, WireField, WireLease, WireTuple, WireValue,
};

fn field(v: WireValue) -> WireField {
    WireField { value: Some(v) }
}

fn invalid_argument(s: TupleStatus) -> String {
    match s {
        TupleStatus::InvalidArgument(m) => m,
        _ => panic!("invalid argument expected"),
    }
}

#[test]
fn values_become_stored_fields() {
    let t = WireTuple {
        fields: vec![
            field(WireValue::Integer(-7)),
            field(WireValue::Float(2.5f64.to_bits())),
            field(WireValue::String("job".to_string())),
            field(WireValue::Boolean(true)),
            field(WireValue::Binary(vec![1, 2, 3])),
            field(WireValue::Null),
        ],
        lease: None,
    };
    let r = convert_proto_tuple_to_internal(&t).ok().unwrap();
    assert_eq!(r.fields.len(), 6);
    assert!(matches!(r.fields[0], TupleField::Integer(-7)));
    match &r.fields[1] {
        TupleField::Float(bits) => assert_eq!(f64::from_bits(*bits), 2.5),
        _ => panic!("float expected"),
    }
    assert!(matches!(&r.fields[2], TupleField::String(s) if s == "job"));
    assert!(matches!(r.fields[3], TupleField::Boolean(true)));
    assert!(matches!(&r.fields[4], TupleField::Binary(b) if b == &vec![1, 2, 3]));
    assert!(matches!(r.fields[5], TupleField::Null));
    assert!(r.lease.is_none());
}

#[test]
fn an_empty_tuple_is_refused() {
    let t = WireTuple { fields: vec![], lease: None };
    let e = convert_proto_tuple_to_internal(&t).err().unwrap();
    assert_eq!(invalid_argument(e), "Tuple must have at least one field");
}

#[test]
fn a_wildcard_cannot_be_written() {
    let e = convert_proto_field_to_internal(&field(WireValue::Wildcard)).err().unwrap();
    assert_eq!(invalid_argument(e), "Wildcard cannot be used as a tuple value (only in patterns)");
    let e = convert_proto_field_to_internal(&WireField { value: None }).err().unwrap();
    assert_eq!(invalid_argument(e), "TupleField must have a value");
}

#[test]
fn the_first_bad_field_decides_the_error() {
    let t = WireTuple {
        fields: vec![field(WireValue::Integer(1)), WireField { value: None }, field(WireValue::Wildcard)],
        lease: None,
    };
    let e = convert_proto_tuple_to_internal(&t).err().unwrap();
    assert_eq!(invalid_argument(e), "TupleField must have a value");
}

#[test]
fn a_lease_keeps_ttl_owner_and_renewal() {
    let t = WireTuple {
        fields: vec![field(WireValue::Integer(1))],
        lease: Some(WireLease { ttl: Some((30, 500)), owner: "worker-1".to_string(), renewable: true }),
    };
    let lease = convert_proto_tuple_to_internal(&t).ok().unwrap().lease.unwrap();
    assert_eq!(lease.ttl_seconds, 30);
    assert_eq!(lease.ttl_nanos, 500);
    assert_eq!(lease.owner.as_deref(), Some("worker-1"));
    assert!(lease.renewable);

    let t = WireTuple {
        fields: vec![field(WireValue::Integer(1))],
        lease: Some(WireLease { ttl: Some((5, 0)), owner: String::new(), renewable: false }),
    };
    let lease = convert_proto_tuple_to_internal(&t).ok().unwrap().lease.unwrap();
    assert!(lease.owner.is_none());
    assert!(!lease.renewable);

    let t = WireTuple {
        fields: vec![field(WireValue::Integer(1))],
        lease: Some(WireLease { ttl: None, owner: "x".to_string(), renewable: true }),
    };
    assert!(convert_proto_tuple_to_internal(&t).ok().unwrap().lease.is_none());
}

#[test]
fn templates_become_patterns() {
    let t = WireTuple {
        fields: vec![field(WireValue::String("job".to_string())), field(WireValue::Wildcard)],
        lease: None,
    };
    let p = convert_proto_template_to_pattern(&t).ok().unwrap();
    assert_eq!(p.len(), 2);
    assert!(matches!(&p[0], PatternField::Exact(TupleField::String(s)) if s == "job"));
    assert!(matches!(p[1], PatternField::Wildcard));

    let empty = WireTuple { fields: vec![], lease: None };
    assert_eq!(
        invalid_argument(convert_proto_template_to_pattern(&empty).err().unwrap()),
        "Template must have at least one field"
    );
    let missing = WireTuple { fields: vec![field(WireValue::Wildcard), WireField { value: None }], lease: None };
    assert_eq!(
        invalid_argument(convert_proto_template_to_pattern(&missing).err().unwrap()),
        "Pattern field must have a value or wildcard"
    );
}

#[test]
fn stored_fields_go_back_on_the_wire() {
    assert!(matches!(convert_internal_field_to_proto(&TupleField::Null), WireValue::Null));
    assert!(matches!(convert_internal_field_to_proto(&TupleField::Integer(9)), WireValue::Integer(9)));
    assert!(matches!(
        convert_internal_field_to_proto(&TupleField::String("a".to_string())),
        WireValue::String(s) if s == "a"
    ));
}

#[test]
fn provider_failures_map_to_statuses() {
    assert!(matches!(
        tuplespace_error_to_status(&TupleSpaceFailure::NotFound),
        TupleStatus::NotFound(m) if m == "Tuple not found"
    ));
    assert!(matches!(
        tuplespace_error_to_status(&TupleSpaceFailure::PatternError("arity".to_string())),
        TupleStatus::InvalidArgument(m) if m == "Pattern error: arity"
    ));
    assert!(matches!(
        tuplespace_error_to_status(&TupleSpaceFailure::LeaseError("expired".to_string())),
        TupleStatus::FailedPrecondition(m) if m == "Lease error: expired"
    ));
    assert!(matches!(
        tuplespace_error_to_status(&TupleSpaceFailure::InvalidConfiguration("bad".to_string())),
        TupleStatus::InvalidArgument(m) if m == "Invalid configuration: bad"
    ));
    assert!(matches!(
        tuplespace_error_to_status(&TupleSpaceFailure::NotSupported("watch".to_string())),
        TupleStatus::Unimplemented(m) if m == "watch"
    ));
    assert!(matches!(
        tuplespace_error_to_status(&TupleSpaceFailure::Other("disk full".to_string())),
        TupleStatus::Internal(m) if m == "TupleSpace error: disk full"
    ));
}
