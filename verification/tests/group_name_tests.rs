use plexspaces_services::group_names::{anchored_pattern, filter_group_names, keep_flagged};

fn names(v: &[&str]) -> Vec<String> {
    v.iter().map(|s| s.to_string()).collect()
}

#[test]
fn a_star_stands_for_any_run_of_characters() {
    assert_eq!(anchored_pattern("orders-*"), "^orders-.*$");
    assert_eq!(anchored_pattern("a*b*"), "^a.*b.*$");
    assert_eq!(anchored_pattern(""), "^$");
}

#[test]
fn a_pattern_must_match_the_whole_name() {
    let all = names(&["orders-1", "orders-2", "billing", "pre-orders-3"]);
    assert_eq!(filter_group_names(all.clone(), "orders-*"), names(&["orders-1", "orders-2"]));
    assert_eq!(filter_group_names(all.clone(), "bill"), Vec::<String>::new());
    assert_eq!(filter_group_names(all.clone(), "*orders*"), names(&["orders-1", "orders-2", "pre-orders-3"]));
}

#[test]
fn an_empty_or_invalid_pattern_keeps_every_name() {
    let all = names(&["b", "a"]);
    assert_eq!(filter_group_names(all.clone(), ""), all);
    assert_eq!(filter_group_names(all.clone(), "(unclosed"), all);
}

#[test]
fn flagged_names_are_kept_in_order() {
    let all = names(&["x", "y", "z"]);
    assert_eq!(keep_flagged(&all, &vec![true, false, true]), names(&["x", "z"]));
    assert_eq!(keep_flagged(&all, &vec![false, false, false]), Vec::<String>::new());
}
