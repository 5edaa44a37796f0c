use plexspaces_services::app_spec_toml::{
    check_save_request, escape_quotes, serialize_application_spec_to_toml, ApplicationSpec,
    ChildSpec, ChildType, FacetSpec, RestartPolicy, SupervisionStrategy, SupervisorSpec,
};

fn create_test_spec() -> ApplicationSpec {
    ApplicationSpec {
        version: "1.0.0".to_string(),
        namespace: "test-namespace".to_string(),
        seed_nodes: Vec::new(),
        supervisor: None,
    }
}

fn child(id: &str, role: &str) -> ChildSpec {
    ChildSpec {
        id: id.to_string(),
        child_type: ChildType::Worker,
        restart: RestartPolicy::Permanent,
        shutdown_timeout_seconds: Some(10),
        args: vec![("role".to_string(), role.to_string())],
        behavior_kind: None,
        facets: Vec::new(),
    }
}

#[test]
fn test_save_wasm_app_atomically_disabled() {
    assert_eq!(check_save_request("/tmp/apps", false), Ok(false));
}

#[test]
fn test_save_wasm_app_atomically_empty_dir() {
    let result = check_save_request("", true);
    assert!(result.is_err());
    assert!(result.unwrap_err().contains("wasm_apps_directory is empty"));
    assert_eq!(check_save_request("/tmp/apps", true), Ok(true));
}

#[test]
fn minimal_spec_serializes_version_and_namespace() {
    let toml = serialize_application_spec_to_toml(&create_test_spec()).unwrap();
    assert_eq!(toml, "version = \"1.0.0\"\nnamespace = \"test-namespace\"");
    assert!(toml.contains("version = \"1.0.0\""));
    assert!(toml.contains("namespace = \"test-namespace\""));
    let no_ns = ApplicationSpec { namespace: String::new(), ..create_test_spec() };
    assert_eq!(serialize_application_spec_to_toml(&no_ns).unwrap(), "version = \"1.0.0\"");
}

#[test]
fn test_serialize_application_spec_round_trips_seed_nodes_and_child_args() {
    let spec = ApplicationSpec {
        version: "1.0.0".to_string(),
        namespace: "heat-diffusion-rust".to_string(),
        seed_nodes: vec!["localhost:8091".to_string(), "localhost:8093".to_string()],
        supervisor: Some(SupervisorSpec {
            strategy: SupervisionStrategy::OneForOne,
            max_restarts: 10,
            max_restart_window_seconds: Some(60),
            children: vec![child("leader", "leader"), child("worker", "worker")],
        }),
    };

    let toml_text = serialize_application_spec_to_toml(&spec).unwrap();
    assert!(toml_text.contains("seed_nodes = [\"localhost:8091\", \"localhost:8093\"]"));
    assert!(toml_text.contains("args = { role = \"leader\" }"));
    assert!(toml_text.contains("args = { role = \"worker\" }"));

    let reparsed: toml::Value = toml::from_str(&toml_text).unwrap();
    let seeds: Vec<String> = reparsed["seed_nodes"]
        .as_array()
        .unwrap()
        .iter()
        .map(|v| v.as_str().unwrap().to_string())
        .collect();
    assert_eq!(seeds, spec.seed_nodes);
    let children = reparsed["supervisor"]["children"].as_array().expect("supervisor");
    assert_eq!(children[0]["args"]["role"].as_str(), Some("leader"));
    assert_eq!(children[1]["args"]["role"].as_str(), Some("worker"));
}

#[test]
fn full_supervisor_section_layout() {
    let spec = ApplicationSpec {
        version: "2".to_string(),
        namespace: String::new(),
        seed_nodes: vec!["a\"b".to_string()],
        supervisor: Some(SupervisorSpec {
            strategy: SupervisionStrategy::RestForOne,
            max_restarts: 3,
            max_restart_window_seconds: None,
            children: vec![ChildSpec {
                id: "c1".to_string(),
                child_type: ChildType::Supervisor,
                restart: RestartPolicy::Transient,
                shutdown_timeout_seconds: None,
                args: Vec::new(),
                behavior_kind: Some("gen\"server".to_string()),
                facets: vec![
                    FacetSpec { facet_type: "timer".to_string(), priority: -5, config: Vec::new() },
                    FacetSpec {
                        facet_type: "cache".to_string(),
                        priority: 7,
                        config: vec![("ttl".to_string(), "30".to_string()), ("mode".to_string(), "x\"y".to_string())],
                    },
                ],
            }],
        }),
    };
    let text = serialize_application_spec_to_toml(&spec).unwrap();
    let expected = [
        "version = \"2\"",
        "seed_nodes = [\"a\\\"b\"]",
        "\n[supervisor]",
        "strategy = \"rest_for_one\"",
        "max_restarts = 3",
        "\n[[supervisor.children]]",
        "id = \"c1\"",
        "type = \"supervisor\"",
        "restart = \"transient\"",
        "behavior_kind = \"gen\\\"server\"",
        "facets = [",
        "  { type = \"timer\", priority = -5, config = {} },",
        "  { type = \"cache\", priority = 7, config = { ttl = \"30\", mode = \"x\\\"y\" } },",
        "]",
    ]
    .join("\n");
    assert_eq!(text, expected);
}

#[test]
fn quotes_are_escaped() {
    assert_eq!(escape_quotes("plain"), "plain");
    assert_eq!(escape_quotes("\"q\""), "\\\"q\\\"");
    assert_eq!(escape_quotes(""), "");
}

#[test]
fn strategies_and_policies_are_named() {
    let mut spec = create_test_spec();
    let mut c = child("w", "r");
    c.restart = RestartPolicy::Temporary;
    c.shutdown_timeout_seconds = None;
    c.args = Vec::new();
    spec.supervisor = Some(SupervisorSpec {
        strategy: SupervisionStrategy::OneForAll,
        max_restarts: 0,
        max_restart_window_seconds: Some(-1),
        children: vec![c],
    });
    let text = serialize_application_spec_to_toml(&spec).unwrap();
    assert!(text.contains("strategy = \"one_for_all\""));
    assert!(text.contains("max_restart_window_seconds = -1"));
    assert!(text.contains("restart = \"temporary\""));
    assert!(text.contains("type = \"worker\""));
    assert!(!text.contains("args"));
}
