use echoxide::adapters::LocalAdapter;
use echoxide::frames::channel_event_frame;
use echoxide::socket::{User, WebSocket};

fn adapter_with(app: &str, ids: &[&str]) -> LocalAdapter {
    let mut ad = LocalAdapter::new();
    for id in ids {
        assert!(ad.add_socket(app, WebSocket::new(id.to_string())));
    }
    ad
}

#[test]
fn publish_reaches_everyone_but_the_sender() {
    let mut ad = adapter_with("app1", &["1.1", "2.2"]);
    ad.add_to_channel("app1", "chat", "1.1", None);
    ad.add_to_channel("app1", "chat", "2.2", None);

    let targets = ad.send_targets("app1", "chat", Some("1.1"));
    assert_eq!(targets, vec!["2.2".to_string()]);

    let frame = channel_event_frame("client-msg", "chat", "{\"x\":1}".as_bytes());
    assert_eq!(
        String::from_utf8(frame).unwrap(),
        "{\"event\":\"client-msg\",\"channel\":\"chat\",\"data\":\"{\\\"x\\\":1}\"}"
    );
}

#[test]
fn publish_without_exclusion_reaches_all() {
    let mut ad = adapter_with("app1", &["1.1", "2.2"]);
    ad.add_to_channel("app1", "chat", "1.1", None);
    ad.add_to_channel("app1", "chat", "2.2", None);
    let mut targets = ad.send_targets("app1", "chat", None);
    targets.sort();
    assert_eq!(targets, vec!["1.1".to_string(), "2.2".to_string()]);
}

#[test]
fn user_targeted_send_reaches_only_that_user() {
    let mut ad = adapter_with("app1", &["1.1", "2.2", "3.3"]);
    assert!(ad.add_user("app1", "1.1", User { id: "u42".to_string() }));
    ad.add_to_channel("app1", "chat", "2.2", None);

    let targets = ad.send_targets("app1", "#server-to-u42", None);
    assert_eq!(targets, vec!["1.1".to_string()]);

    // No channel of that name exists anywhere in the listing.
    let names: Vec<String> = ad
        .get_channels_with_sockets_count("app1")
        .into_iter()
        .map(|p| p.0)
        .collect();
    assert!(!names.contains(&"#server-to-u42".to_string()));
}

#[test]
fn unknown_channel_has_no_targets() {
    let ad = adapter_with("app1", &["1.1"]);
    assert!(ad.send_targets("app1", "nowhere", None).is_empty());
    assert!(ad.send_targets("ghost-app", "chat", None).is_empty());
}

#[test]
fn adapter_bookkeeping() {
    let mut ad = adapter_with("app1", &["1.1", "2.2"]);
    assert_eq!(ad.get_sockets_count("app1"), 2);
    ad.add_to_channel("app1", "a", "1.1", None);
    ad.add_to_channel("app1", "b", "1.1", None);
    assert_eq!(ad.get_channel_sockets_count("app1", "a"), 1);
    assert!(ad.is_in_channel("app1", "a", "1.1"));
    assert!(ad.remove_socket("app1", "1.1"));
    assert_eq!(ad.get_channel_sockets_count("app1", "a"), 0);
    assert_eq!(ad.get_sockets_count("app1"), 1);
    assert_eq!(ad.remove_from_channel("app1", "a", "9.9"), None);
    ad.clear_namespace("app1");
    assert_eq!(ad.get_sockets_count("app1"), 0);
    ad.clear_namespaces();
    assert!(ad.get_namespaces().is_empty());
}
