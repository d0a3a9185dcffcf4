use plugin_potato_live::bus::{
    group_message, image_message, is_query, is_version_query, BusMessage, GroupMessage,
    MessageKind,
};

fn from_group(group_id: u64, user_id: u64, message: &str) -> Option<GroupMessage> {
    Some(GroupMessage { group_id, user_id, message: message.to_string() })
}

#[test]
fn only_groups_are_answered() {
    let message = |kind, group_id| {
        Some(BusMessage { kind, group_id, user_id: 5, message: "x".to_string() })
    };
    assert_eq!(group_message(message(MessageKind::Group, Some(9))), from_group(9, 5, "x"));
    assert_eq!(group_message(message(MessageKind::Group, None)), from_group(0, 5, "x"));
    assert_eq!(group_message(message(MessageKind::Private, Some(9))), None);
    assert_eq!(group_message(message(MessageKind::Other, Some(9))), None);
    assert_eq!(group_message(None), None);
}

#[test]
fn version_queries_are_recognised() {
    assert!(is_version_query(r#"{"action":"query"}"#));
    assert!(is_version_query(r#"{"b":[1],"action":"query"}"#));
    assert!(!is_version_query(r#"{"action":"response"}"#));
    assert!(!is_version_query(r#"{"action":["query"]}"#));
    assert!(!is_version_query(r#"["action","query"]"#));
    assert!(!is_version_query(r#""query""#));
    assert!(!is_version_query("query"));
    assert!(!is_version_query(""));
    assert!(is_query(&"query".to_string()));
    assert!(!is_query(&"Query".to_string()));
}

#[test]
fn pictures_are_written() {
    assert_eq!(image_message("https://a/b.png"), "[CQ:image,url=https://a/b.png]");
    assert_eq!(image_message("cache/http.png"), "[CQ:image,url=cache/http.png]");
    assert_eq!(image_message("cache/b.png"), "[CQ:image,file=cache/b.png]");
    assert_eq!(image_message(""), "[CQ:image,file=]");
}
