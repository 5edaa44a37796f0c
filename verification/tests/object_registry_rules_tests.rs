use plexspaces_services::object_registry_rules::ctx_from_request;
use plexspaces_services::accounts::RequestError;
use plexspaces_services::object_registry_rules::{heartbeat_answer, object_type_counts, tally_heartbeats};

#[test]
fn heartbeats_for_missing_objects_are_not_accepted() {
    assert!(matches!(heartbeat_answer(&Ok(())), Ok(true)));
    assert!(matches!(heartbeat_answer(&Err("Object Not Found: x".to_string())), Ok(false)));
    assert!(matches!(heartbeat_answer(&Err("registration does not exist".to_string())), Ok(false)));
    match heartbeat_answer(&Err("database is locked".to_string())) {
        Err(RequestError::Internal(m)) => assert_eq!(m, "database is locked"),
        _ => panic!("internal error expected"),
    }
}

#[test]
fn a_batch_of_heartbeats_is_tallied() {
    assert_eq!(tally_heartbeats(&vec![true, false, true, true]), (3, 1));
    assert_eq!(tally_heartbeats(&vec![]), (0, 0));
}

#[test]
fn object_types_are_counted_in_first_seen_order() {
    let counts = object_type_counts(&vec![3, 1, 3, 3, 2, 1]);
    assert_eq!(counts, vec![(3, 3), (1, 2), (2, 1)]);
    assert!(object_type_counts(&vec![]).is_empty());
}

#[test]
fn requests_act_under_the_authenticated_scope_first() {
    let auth = Some(("acme".to_string(), String::new(), true));
    assert_eq!(
        ctx_from_request(&auth, "body-tenant", "body-ns"),
        ("acme".to_string(), "body-ns".to_string(), true)
    );
    assert_eq!(
        ctx_from_request(&None, "body-tenant", "body-ns"),
        ("body-tenant".to_string(), "body-ns".to_string(), false)
    );
}
