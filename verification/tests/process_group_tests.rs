use plexspaces_services::process_groups::{group_error_status, GroupStatus};
use plexspaces_services::process_groups::{
    cache_key, check_accepting_requests, group_exists_error, group_members_from_object_ids,
    group_name_from_object_id, group_not_found_error, group_object_id, group_prefix,
    join_count_label, leave_error_message, member_actor_from_object_id, membership_labels,
    membership_object_id, membership_object_name, membership_prefix, not_member_error,
    LeaveError, LocalGroups,
};

fn topics(ts: &[&str]) -> Vec<String> {
    ts.iter().map(|t| t.to_string()).collect()
}

#[test]
fn registered_names() {
    assert_eq!(cache_key("t", "ns", "g"), "t:ns:g");
    assert_eq!(group_object_id("t", "ns", "g"), "t:ns:pg:g");
    assert_eq!(membership_prefix("t", "ns", "g"), "t:ns:pg:g:member:");
    assert_eq!(membership_object_id("t", "ns", "g", "a1", "n1"), "t:ns:pg:g:member:a1@n1");
    assert_eq!(group_prefix("t", "ns"), "t:ns:pg:");
    assert_eq!(membership_object_name("a1", "g"), "a1@g");
    assert_eq!(join_count_label(3), "join_count:3");
    assert_eq!(join_count_label(0), "join_count:0");
    assert_eq!(join_count_label(-2), "join_count:-2");
    assert_eq!(join_count_label(i32::MIN), "join_count:-2147483648");
    assert_eq!(
        membership_labels(&topics(&["alerts", "news"]), 2),
        vec!["alerts", "news", "join_count:2"]
    );
}

#[test]
fn members_are_read_from_object_ids() {
    let prefix = "t:ns:pg:g:member:";
    assert_eq!(member_actor_from_object_id("t:ns:pg:g:member:a1@n1", prefix), Some("a1".to_string()));
    assert_eq!(member_actor_from_object_id("t:ns:pg:g:member:a1", prefix), Some("a1".to_string()));
    assert_eq!(member_actor_from_object_id("t:ns:pg:g:member:@n1", prefix), None);
    assert_eq!(member_actor_from_object_id("t:ns:pg:h:member:a1@n1", prefix), None);
    assert_eq!(member_actor_from_object_id("t:ns:pg:g:member:a@b@c", prefix), Some("a".to_string()));
}

#[test]
fn group_members_are_unique_and_sorted() {
    let ids = topics(&[
        "t:ns:pg:g:member:zed@n1",
        "t:ns:pg:g:member:amy@n1",
        "t:ns:pg:g:member:zed@n2",
        "t:ns:pg:other:member:bob@n1",
        "t:ns:pg:g:member:@n3",
        "t:ns:pg:g:member:Bob@n3",
    ]);
    assert_eq!(
        group_members_from_object_ids(&ids, "t:ns:pg:g:member:"),
        vec!["Bob", "amy", "zed"]
    );
    assert!(group_members_from_object_ids(&Vec::new(), "p").is_empty());
}

#[test]
fn groups_are_read_from_object_ids() {
    let prefix = "t:ns:pg:";
    assert_eq!(group_name_from_object_id("t:ns:pg:chat", "pubsub", prefix), Some("chat".to_string()));
    assert_eq!(group_name_from_object_id("t:ns:pg:chat", "membership", prefix), None);
    assert_eq!(group_name_from_object_id("t:ns:pg:", "pubsub", prefix), None);
    assert_eq!(group_name_from_object_id("u:ns:pg:chat", "pubsub", prefix), None);
}

#[test]
fn joins_are_counted_and_leaves_undo_them() {
    let mut groups = LocalGroups::new();
    let key = cache_key("t", "ns", "g");
    groups.create_group(&key);
    assert_eq!(groups.join(&key, "a1", &topics(&["x"])), 1);
    assert_eq!(groups.join(&key, "a1", &topics(&["y", "x"])), 2);
    assert_eq!(groups.member_topics(&key, "a1").unwrap(), vec!["x", "y"]);

    let (ended, count, ts) = groups.leave(&key, "a1").unwrap();
    assert!(!ended);
    assert_eq!(count, 1);
    assert_eq!(ts, vec!["x", "y"]);
    let (ended, count, _) = groups.leave(&key, "a1").unwrap();
    assert!(ended);
    assert_eq!(count, 0);
    assert_eq!(groups.leave(&key, "a1").unwrap_err(), LeaveError::NotMember);
    assert_eq!(groups.leave("t:ns:none", "a1").unwrap_err(), LeaveError::GroupNotFound);
}

#[test]
fn local_members_of_groups() {
    let mut groups = LocalGroups::new();
    groups.join("k1", "a1", &Vec::new());
    groups.join("k1", "a2", &Vec::new());
    groups.join("k2", "a3", &Vec::new());
    assert_eq!(groups.local_members("k1"), vec!["a1", "a2"]);
    assert_eq!(groups.local_members("k2"), vec!["a3"]);
    assert!(groups.local_members("k3").is_empty());

    groups.create_group("k1");
    assert!(groups.local_members("k1").is_empty());
    groups.join("k2", "a4", &Vec::new());
    groups.delete_group("k2");
    assert!(groups.local_members("k2").is_empty());
    assert_eq!(groups.leave("k2", "a3").unwrap_err(), LeaveError::GroupNotFound);
}

#[test]
fn publish_recipients_follow_topics() {
    let mut groups = LocalGroups::new();
    groups.join("k", "all", &Vec::new());
    groups.join("k", "news", &topics(&["news"]));
    groups.join("k", "sport", &topics(&["sport"]));
    let members = topics(&["all", "news", "remote", "sport"]);
    assert_eq!(
        groups.publish_recipients("k", members.clone(), Some("news")),
        vec!["all", "news", "remote"]
    );
    assert_eq!(groups.publish_recipients("k", members.clone(), None), members);
    assert_eq!(groups.publish_recipients("other", members.clone(), Some("news")), members);
}

#[test]
fn process_group_errors() {
    assert_eq!(group_exists_error("g"), "Group already exists: g");
    assert_eq!(group_not_found_error("g"), "Group not found: g");
    assert_eq!(not_member_error("a", "g"), "Actor a not in group g");
    assert_eq!(leave_error_message(&LeaveError::NotMember, "a", "g"), "Actor a not in group g");
    assert_eq!(leave_error_message(&LeaveError::GroupNotFound, "a", "g"), "Group not found: g");
    assert_eq!(check_accepting_requests(true).unwrap_err(), "Service is shutting down");
    assert!(check_accepting_requests(false).is_ok());
}

#[test]
fn group_failures_map_to_statuses_by_their_words() {
    assert!(matches!(group_error_status("Group g not found"), GroupStatus::NotFound(m) if m == "Group g not found"));
    assert!(matches!(group_error_status("actor a not in group g"), GroupStatus::NotFound(_)));
    assert!(matches!(group_error_status("Group g already exists"), GroupStatus::AlreadyExists(_)));
    assert!(matches!(group_error_status("Service is shutting down"), GroupStatus::Unavailable(_)));
    assert!(matches!(group_error_status("unauthorized caller"), GroupStatus::PermissionDenied(_)));
    assert!(matches!(group_error_status("disk full"), GroupStatus::Internal(m) if m == "disk full"));
}
