use plexspaces_services::accounts::RequestError;
use plexspaces_services::tracing_control::{TracingControl, TracingTarget};

#[test]
fn test_default_disabled() {
    let svc = TracingControl::new();
    assert!(!svc.is_enabled("Counter", "tenant/ns/Counter/abc"));
}

#[test]
fn test_enable_global() {
    let mut svc = TracingControl::new();
    assert_eq!(svc.enable_tracing(TracingTarget::All, "", "").unwrap(), "Tracing enabled");
    assert!(svc.is_enabled("Counter", "tenant/ns/Counter/abc"));
}

#[test]
fn test_enable_actor_type() {
    let mut svc = TracingControl::new();
    svc.enable_tracing(TracingTarget::ActorType, "Counter", "").unwrap();
    assert!(svc.is_enabled("Counter", "tenant/ns/Counter/abc"));
    assert!(!svc.is_enabled("Other", "tenant/ns/Other/abc"));
}

#[test]
fn test_enable_actor_id_overrides_type() {
    let mut svc = TracingControl::new();
    svc.enable_tracing(TracingTarget::ActorId, "", "tenant/ns/Counter/specific").unwrap();
    assert!(svc.is_enabled("Counter", "tenant/ns/Counter/specific"));
    assert!(!svc.is_enabled("Counter", "tenant/ns/Counter/other"));
}

#[test]
fn test_disable_clears_all() {
    let mut svc = TracingControl::new();
    svc.enable_tracing(TracingTarget::All, "", "").unwrap();
    assert_eq!(svc.disable_tracing(TracingTarget::All, "", "").unwrap(), "Tracing disabled");
    assert!(!svc.is_enabled("Counter", "tenant/ns/Counter/abc"));
}

#[test]
fn test_disable_actor_type_suppresses_when_global_on() {
    let mut svc = TracingControl::new();
    svc.enable_tracing(TracingTarget::All, "", "").unwrap();
    assert!(svc.is_enabled("Sensitive", "ns/Sensitive/x"));

    svc.disable_tracing(TracingTarget::ActorType, "Sensitive", "").unwrap();
    assert!(!svc.is_enabled("Sensitive", "ns/Sensitive/x"), "per-type suppress must override global=true");
    assert!(svc.is_enabled("Other", "ns/Other/y"), "unaffected types must remain enabled");
}

#[test]
fn test_disable_actor_id_suppresses_when_global_on() {
    let mut svc = TracingControl::new();
    svc.enable_tracing(TracingTarget::All, "", "").unwrap();

    svc.disable_tracing(TracingTarget::ActorId, "", "ns/Actor/quiet-one").unwrap();
    assert!(!svc.is_enabled("Actor", "ns/Actor/quiet-one"), "per-id suppress must override global=true");
    assert!(svc.is_enabled("Actor", "ns/Actor/loud-one"), "other ids must remain enabled");
}

#[test]
fn test_get_status_returns_entries() {
    let mut svc = TracingControl::new();
    svc.enable_tracing(TracingTarget::ActorType, "Counter", "").unwrap();
    let (global_enabled, entries) = svc.tracing_status();
    assert!(!global_enabled);
    assert_eq!(entries.len(), 1);
    assert_eq!(entries[0].value, "Counter");
    assert_eq!(entries[0].target, TracingTarget::ActorType);
    assert!(entries[0].enabled);
}

#[test]
fn switches_need_a_type_or_id() {
    let mut svc = TracingControl::new();
    assert!(matches!(
        svc.enable_tracing(TracingTarget::ActorType, "", ""),
        Err(RequestError::InvalidArgument(m)) if m == "actor_type required for ACTOR_TYPE target"
    ));
    assert!(matches!(
        svc.disable_tracing(TracingTarget::ActorId, "", ""),
        Err(RequestError::InvalidArgument(m)) if m == "actor_id required for ACTOR_ID target"
    ));
    assert!(svc.enable_tracing(TracingTarget::Unspecified, "", "").is_ok());
    assert!(svc.is_enabled("Any", "any"));
}

#[test]
fn status_lists_types_then_ids() {
    let mut svc = TracingControl::new();
    svc.disable_tracing(TracingTarget::ActorId, "", "a/1").unwrap();
    svc.enable_tracing(TracingTarget::ActorType, "T", "").unwrap();
    svc.enable_tracing(TracingTarget::ActorType, "T", "").unwrap();
    let (_, entries) = svc.tracing_status();
    assert_eq!(entries.len(), 2);
    assert_eq!(entries[0].target, TracingTarget::ActorType);
    assert_eq!(entries[1].target, TracingTarget::ActorId);
    assert_eq!(entries[1].value, "a/1");
    assert!(!entries[1].enabled);
}
