use plexspaces_services::accounts::RequestError;
use plexspaces_services::service_links::{check_link, link_not_found, LinkCatalog, ServiceLink, ServiceLinks};

fn weather_link(name: &str) -> ServiceLink {
    ServiceLink {
        name: name.to_string(),
        base_url: format!("https://{}.example.com", name),
        transport: 1,
    }
}

#[test]
fn test_add_and_get_service_link() {
    let mut svc = ServiceLinks::seeded(Vec::new());
    let added = svc.add_link(Some(weather_link("payments-api"))).unwrap();
    assert_eq!(added.name, "payments-api");
    assert_eq!(svc.get_link("payments-api").unwrap().base_url, "https://payments-api.example.com");
}

#[test]
fn test_remove_service_link() {
    let mut svc = ServiceLinks::seeded(Vec::new());
    svc.add_link(Some(weather_link("svc-a"))).unwrap();
    svc.remove_link("svc-a").unwrap();
    assert!(matches!(svc.get_link("svc-a"), Err(RequestError::NotFound(_))));
}

#[test]
fn test_remove_unregisters_client_when_catalog_empty() {
    let mut svc = ServiceLinks::seeded(Vec::new());
    svc.add_link(Some(weather_link("temp-link"))).unwrap();
    assert_eq!(svc.len(), 1);
    svc.remove_link("temp-link").unwrap();
    assert_eq!(svc.len(), 0);
}

#[test]
fn test_remove_nonexistent_returns_not_found() {
    let mut svc = ServiceLinks::seeded(Vec::new());
    assert!(matches!(
        svc.remove_link("no-such"),
        Err(RequestError::NotFound(m)) if m == "service link 'no-such' not found"
    ));
    assert!(matches!(
        svc.remove_link(""),
        Err(RequestError::InvalidArgument(m)) if m == "name must not be empty"
    ));
}

#[test]
fn test_list_service_links() {
    let mut svc = ServiceLinks::seeded(Vec::new());
    for name in &["svc-z", "svc-a", "svc-m"] {
        svc.add_link(Some(weather_link(name))).unwrap();
    }
    let (links, token) = svc.list_links(0, "");
    assert_eq!(links.len(), 3);
    assert_eq!(links[0].name, "svc-a");
    assert_eq!(links[1].name, "svc-m");
    assert_eq!(links[2].name, "svc-z");
    assert!(token.is_empty());
    let all: Vec<String> = svc.all_links().iter().map(|l| l.name.clone()).collect();
    assert_eq!(all, vec!["svc-a", "svc-m", "svc-z"]);
}

#[test]
fn test_list_pagination() {
    let mut svc = ServiceLinks::seeded(Vec::new());
    for name in &["alpha", "beta", "gamma", "delta", "epsilon"] {
        svc.add_link(Some(weather_link(name))).unwrap();
    }
    let (page1, token1) = svc.list_links(2, "");
    assert_eq!(page1.len(), 2);
    assert_eq!(page1[0].name, "alpha");
    assert_eq!(page1[1].name, "beta");
    assert!(!token1.is_empty());

    let (page2, token2) = svc.list_links(2, &token1);
    assert_eq!(page2.len(), 2);
    assert_eq!(page2[0].name, "delta");
    assert_eq!(page2[1].name, "epsilon");
    assert_eq!(token2, "epsilon");

    let (page3, token3) = svc.list_links(2, &token2);
    assert_eq!(page3.len(), 1);
    assert_eq!(page3[0].name, "gamma");
    assert!(token3.is_empty());
}

#[test]
fn test_add_invalid_link_missing_name() {
    let mut svc = ServiceLinks::seeded(Vec::new());
    let link = ServiceLink { name: String::new(), base_url: "https://example.com".to_string(), transport: 1 };
    assert!(matches!(
        svc.add_link(Some(link)),
        Err(RequestError::InvalidArgument(m)) if m == "link.name must not be empty"
    ));
    assert_eq!(svc.len(), 0);
}

#[test]
fn test_add_invalid_link_missing_base_url() {
    let mut svc = ServiceLinks::seeded(Vec::new());
    let link = ServiceLink { name: "my-link".to_string(), base_url: String::new(), transport: 1 };
    assert!(matches!(
        svc.add_link(Some(link)),
        Err(RequestError::InvalidArgument(m)) if m == "link.base_url must not be empty"
    ));
}

#[test]
fn test_add_no_link_returns_invalid_argument() {
    let mut svc = ServiceLinks::seeded(Vec::new());
    assert!(matches!(
        svc.add_link(None),
        Err(RequestError::InvalidArgument(m)) if m == "link is required"
    ));
    assert!(check_link(&Some(weather_link("x"))).is_ok());
}

#[test]
fn test_seeded_from_runtime_config() {
    let unnamed = ServiceLink { name: String::new(), base_url: "https://x".to_string(), transport: 1 };
    let svc = ServiceLinks::seeded(vec![weather_link("pre-seeded"), unnamed]);
    assert_eq!(svc.get_link("pre-seeded").unwrap().name, "pre-seeded");
    assert_eq!(svc.len(), 1);
}

#[test]
fn adding_a_link_again_replaces_it() {
    let mut svc = ServiceLinks::seeded(Vec::new());
    svc.add_link(Some(weather_link("a"))).unwrap();
    let mut newer = weather_link("a");
    newer.base_url = "https://other".to_string();
    svc.add_link(Some(newer)).unwrap();
    assert_eq!(svc.len(), 1);
    assert_eq!(svc.get_link("a").unwrap().base_url, "https://other");
}

#[test]
fn generic_catalog_pages() {
    let mut c: LinkCatalog<u32> = LinkCatalog::new();
    c.insert("b".to_string(), 2);
    c.insert("a".to_string(), 1);
    c.insert("c".to_string(), 3);
    assert_eq!(c.get("b"), Some(&2));
    assert!(c.remove("b"));
    assert!(!c.remove("b"));
    let (page, token) = c.list_page(1, "a");
    assert_eq!(page, vec![&3]);
    assert!(token.is_empty());
    assert!(matches!(link_not_found("q"), RequestError::NotFound(m) if m == "service link 'q' not found"));
}
