use echoxide::channel::{
    channel_kind, client_event, has_prefix, restricted_channel_name, user_target, ChannelKind,
    MAX_CHANNEL_NAME_LEN,
};

#[test]
fn accepts_ordinary_names() {
    assert!(!restricted_channel_name("chat"));
    assert!(!restricted_channel_name("private-orders"));
    assert!(!restricted_channel_name("presence-room.1,x;y=z@-_"));
}

#[test]
fn rejects_empty_name() {
    assert!(restricted_channel_name(""));
}

#[test]
fn rejects_overlong_name() {
    let name = "a".repeat(MAX_CHANNEL_NAME_LEN);
    assert!(!restricted_channel_name(&name));
    let name = "a".repeat(MAX_CHANNEL_NAME_LEN + 1);
    assert!(restricted_channel_name(&name));
}

#[test]
fn rejects_forbidden_characters() {
    assert!(restricted_channel_name("#server-to-u42"));
    assert!(restricted_channel_name("chat room"));
    assert!(restricted_channel_name("chat/room"));
    assert!(restricted_channel_name("caf\u{e9}"));
}

#[test]
fn kind_follows_prefix() {
    assert_eq!(channel_kind("chat"), ChannelKind::Public);
    assert_eq!(channel_kind("private-chat"), ChannelKind::Private);
    assert_eq!(channel_kind("presence-room"), ChannelKind::Presence);
    assert_eq!(channel_kind("private-encrypted-x"), ChannelKind::Encrypted);
    // The longer prefix wins over the shorter one it contains.
    assert_eq!(channel_kind("private-encrypted"), ChannelKind::Private);
    assert_eq!(channel_kind("presencefoo"), ChannelKind::Public);
}

#[test]
fn user_target_parses_server_to_names() {
    let t = user_target("#server-to-u42");
    assert_eq!(t.as_deref(), Some("u42"));
    assert!(user_target("#server-to-").is_none());
    assert!(user_target("chat").is_none());
}

#[test]
fn client_event_needs_prefix() {
    assert!(client_event("client-msg"));
    assert!(!client_event("pusher:ping"));
    assert!(!client_event("клиент"));
}

#[test]
fn prefix_check_is_exact() {
    assert!(has_prefix("private-chat", "private-"));
    assert!(!has_prefix("privat", "private-"));
    assert!(has_prefix("x", ""));
}
