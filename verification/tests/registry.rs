use echoxide::namespace::Namespace;
use echoxide::socket::{PresenceMemberInfo, User, WebSocket};

fn ns_with(ids: &[&str]) -> Namespace {
    let mut ns = Namespace::new("app1".to_string());
    for id in ids {
        assert!(ns.add_socket(WebSocket::new(id.to_string())));
    }
    ns
}

#[test]
fn add_socket_refuses_duplicate_id() {
    let mut ns = ns_with(&["1.1"]);
    assert!(!ns.add_socket(WebSocket::new("1.1".to_string())));
    assert_eq!(ns.sockets_count(), 1);
}

#[test]
fn add_to_channel_counts_members() {
    let mut ns = ns_with(&["1.1", "2.2"]);
    assert_eq!(ns.add_to_channel("chat", "1.1", None), 1);
    assert_eq!(ns.add_to_channel("chat", "2.2", None), 2);
    // Joining again does not grow the set.
    assert_eq!(ns.add_to_channel("chat", "1.1", None), 2);
    assert!(ns.is_in_channel("chat", "1.1"));
    assert!(ns.is_in_channel("chat", "2.2"));
    assert!(!ns.is_in_channel("chat", "3.3"));
}

#[test]
fn remove_from_channel_deletes_empty_sets() {
    let mut ns = ns_with(&["1.1"]);
    ns.add_to_channel("chat", "1.1", None);
    assert_eq!(ns.remove_from_channel("1.1", "chat"), Some(0));
    assert_eq!(ns.channel_sockets_count("chat"), 0);
    assert!(ns.channels_with_counts().is_empty());
    // An unknown socket id is reported as such.
    assert_eq!(ns.remove_from_channel("9.9", "chat"), None);
}

#[test]
fn subscribe_then_unsubscribe_restores_the_registry() {
    let mut ns = ns_with(&["1.1", "2.2"]);
    ns.add_to_channel("room", "2.2", None);
    let channels_before: Vec<(String, usize)> = ns.channels_with_counts();
    let count_before = ns.channel_sockets_count("room");

    ns.add_to_channel("room", "1.1", None);
    assert_eq!(ns.channel_sockets_count("room"), 2);
    ns.remove_from_channel("1.1", "room");

    assert_eq!(ns.channel_sockets_count("room"), count_before);
    let mut after = ns.channels_with_counts();
    let mut before = channels_before.clone();
    before.sort();
    after.sort();
    assert_eq!(before, after);
    assert!(!ns.is_in_channel("room", "1.1"));
    assert!(ns.is_in_channel("room", "2.2"));
}

#[test]
fn remove_socket_withdraws_every_membership() {
    let mut ns = ns_with(&["1.1", "2.2"]);
    ns.add_to_channel("a", "1.1", None);
    ns.add_to_channel("b", "1.1", None);
    ns.add_to_channel("b", "2.2", None);
    assert!(ns.add_user("1.1", User { id: "u1".to_string() }));

    assert!(ns.remove_socket("1.1"));

    assert_eq!(ns.channel_sockets_count("a"), 0);
    assert_eq!(ns.channel_sockets_count("b"), 1);
    assert!(!ns.is_in_channel("b", "1.1"));
    assert!(ns.user_sockets("u1").is_empty());
    assert!(ns.get_socket("1.1").is_none());
    // The emptied channel key is gone entirely.
    let names: Vec<String> = ns.channels_with_counts().into_iter().map(|p| p.0).collect();
    assert!(!names.contains(&"a".to_string()));
    assert!(!ns.remove_socket("1.1"));
}

#[test]
fn user_index_tracks_bindings() {
    let mut ns = ns_with(&["1.1", "2.2"]);
    assert!(ns.add_user("1.1", User { id: "u1".to_string() }));
    assert!(ns.add_user("2.2", User { id: "u1".to_string() }));
    let mut socks = ns.user_sockets("u1");
    socks.sort();
    assert_eq!(socks, vec!["1.1".to_string(), "2.2".to_string()]);
    // A second signin on the same socket is refused.
    assert!(!ns.add_user("1.1", User { id: "u2".to_string() }));
    assert!(ns.remove_user("1.1"));
    assert_eq!(ns.user_sockets("u1"), vec!["2.2".to_string()]);
    assert!(!ns.remove_user("1.1"));
}

#[test]
fn channel_members_dedupes_by_user() {
    let mut ns = ns_with(&["1.1", "2.2", "3.3"]);
    let m1 = PresenceMemberInfo { user_id: "u1".to_string(), user_info: None };
    let m1b = PresenceMemberInfo { user_id: "u1".to_string(), user_info: None };
    let m2 = PresenceMemberInfo {
        user_id: "u2".to_string(),
        user_info: Some("{\"name\":\"Bea\"}".to_string()),
    };
    ns.add_to_channel("presence-room", "1.1", Some(m1));
    ns.add_to_channel("presence-room", "2.2", Some(m1b));
    ns.add_to_channel("presence-room", "3.3", Some(m2));
    assert_eq!(ns.channel_sockets_count("presence-room"), 3);
    assert_eq!(ns.channel_members_count("presence-room"), 2);
    let members = ns.channel_members("presence-room");
    assert!(members.contains_key("u1"));
    assert!(members.contains_key("u2"));
    assert!(!members.contains_key("u3"));
}
