use echoxide::app::App;
use echoxide::channels::{
    PresenceChannelManager, PrivateChannelManager, PublicChannelManager, CODE_FORBIDDEN,
    CODE_OVER_CAPACITY, CODE_PAYLOAD_TOO_LARGE,
};
use echoxide::namespace::Namespace;
use echoxide::socket::{PresenceMemberInfo, WebSocket};

use hmac::Mac;

fn test_app() -> App {
    App::new(
        "app1".to_string(),
        "key".to_string(),
        "app-secret".to_string(),
    )
}

fn hex_hmac(secret: &str, message: &str) -> String {
    let mut mac = hmac::Hmac::<sha2::Sha256>::new_from_slice(secret.as_bytes()).unwrap();
    mac.update(message.as_bytes());
    let out = mac.finalize().into_bytes();
    let mut s = String::new();
    for b in out.iter() {
        s.push_str(&format!("{:02x}", b));
    }
    s
}

fn auth_for(app: &App, message: &str) -> String {
    format!("{}:{}", app.key, hex_hmac(&app.secret, message))
}

fn ns_with(ids: &[&str]) -> Namespace {
    let mut ns = Namespace::new("app1".to_string());
    for id in ids {
        assert!(ns.add_socket(WebSocket::new(id.to_string())));
    }
    ns
}

fn member(uid: &str) -> PresenceMemberInfo {
    PresenceMemberInfo { user_id: uid.to_string(), user_info: None }
}

#[test]
fn public_join_rejects_restricted_name() {
    let mut ns = ns_with(&["1.1"]);
    let r = PublicChannelManager::join(&mut ns, "bad name", "1.1");
    assert!(!r.success);
    assert_eq!(r.error_code, Some(CODE_FORBIDDEN));
    assert_eq!(r.auth_error, Some(true));
    assert!(ns.channels_with_counts().is_empty());
}

#[test]
fn public_join_and_leave() {
    let mut ns = ns_with(&["1.1"]);
    let r = PublicChannelManager::join(&mut ns, "chat", "1.1");
    assert!(r.success);
    assert_eq!(r.channel_connections, Some(1));
    let l = PublicChannelManager::leave(&mut ns, "1.1", "chat");
    assert!(l.left);
    assert_eq!(l.remaining_connections, Some(0));
    assert_eq!(l.member, None);
}

#[test]
fn private_join_rejects_wrong_signature() {
    let app = test_app();
    let mut ns = ns_with(&["1.1"]);
    let r = PrivateChannelManager::join(&mut ns, "private-x", "1.1", Some("key:deadbeef"), &app);
    assert!(!r.success);
    assert_eq!(r.auth_error, Some(true));
    assert_eq!(r.error_code, Some(CODE_FORBIDDEN));
    assert!(!ns.is_in_channel("private-x", "1.1"));
    assert!(ns.channels_with_counts().is_empty());
}

#[test]
fn private_join_rejects_missing_auth() {
    let app = test_app();
    let mut ns = ns_with(&["1.1"]);
    let r = PrivateChannelManager::join(&mut ns, "private-x", "1.1", None, &app);
    assert!(!r.success);
    assert_eq!(r.error_code, Some(CODE_FORBIDDEN));
}

#[test]
fn private_join_accepts_correct_signature() {
    let app = test_app();
    let mut ns = ns_with(&["1.1"]);
    let auth = auth_for(&app, "1.1:private-x");
    let r = PrivateChannelManager::join(&mut ns, "private-x", "1.1", Some(&auth), &app);
    assert!(r.success, "a correctly signed token must be accepted");
    assert_eq!(r.channel_connections, Some(1));
    assert!(ns.is_in_channel("private-x", "1.1"));
}

#[test]
fn presence_join_dedupes_users_and_fires_member_added_once() {
    let app = test_app();
    let mut ns = ns_with(&["1.1", "2.2", "3.3"]);
    let c = "presence-room";

    // Socket A, user u1: a new member appears.
    let auth = auth_for(&app, &format!("1.1:{}:{{\"user_id\":\"u1\"}}", c));
    let r = PresenceChannelManager::join(
        &mut ns,
        c,
        "1.1",
        Some(&auth),
        "{\"user_id\":\"u1\"}",
        member("u1"),
        &app,
    );
    assert!(r.success);
    assert_eq!(r.member, Some(true));

    // The same socket again: idempotent, no second member_added.
    let r = PresenceChannelManager::join(
        &mut ns,
        c,
        "1.1",
        Some(&auth),
        "{\"user_id\":\"u1\"}",
        member("u1"),
        &app,
    );
    assert!(r.success);
    assert_eq!(r.member, Some(false));
    assert_eq!(ns.channel_sockets_count(c), 1);

    // Socket B of the same user: joins the set, but the member is already
    // represented.
    let auth_b = auth_for(&app, &format!("2.2:{}:{{\"user_id\":\"u1\"}}", c));
    let r = PresenceChannelManager::join(
        &mut ns,
        c,
        "2.2",
        Some(&auth_b),
        "{\"user_id\":\"u1\"}",
        member("u1"),
        &app,
    );
    assert!(r.success);
    assert_eq!(r.member, Some(false));
    assert_eq!(ns.channel_sockets_count(c), 2);
    assert_eq!(ns.channel_members_count(c), 1);

    // Socket C, user u2: a new member again.
    let auth_c = auth_for(&app, &format!("3.3:{}:{{\"user_id\":\"u2\"}}", c));
    let r = PresenceChannelManager::join(
        &mut ns,
        c,
        "3.3",
        Some(&auth_c),
        "{\"user_id\":\"u2\"}",
        member("u2"),
        &app,
    );
    assert!(r.success);
    assert_eq!(r.member, Some(true));
    assert_eq!(ns.channel_members_count(c), 2);

    // B leaves: u1 still present through A, so no member_removed.
    let l = PresenceChannelManager::leave(&mut ns, "2.2", c);
    assert!(l.left);
    assert_eq!(l.member, Some(false));

    // A leaves: u1's last socket departs.
    let l = PresenceChannelManager::leave(&mut ns, "1.1", c);
    assert!(l.left);
    assert_eq!(l.member, Some(true));
    assert_eq!(ns.channel_members_count(c), 1);
}

#[test]
fn presence_join_enforces_member_cap() {
    let mut app = test_app();
    app.max_presence_members_per_channel = 1;
    let mut ns = ns_with(&["1.1", "2.2"]);
    let c = "presence-room";
    let auth = auth_for(&app, &format!("1.1:{}:d1", c));
    let r = PresenceChannelManager::join(&mut ns, c, "1.1", Some(&auth), "d1", member("u1"), &app);
    assert!(r.success);
    let auth = auth_for(&app, &format!("2.2:{}:d2", c));
    let r = PresenceChannelManager::join(&mut ns, c, "2.2", Some(&auth), "d2", member("u2"), &app);
    assert!(!r.success);
    assert_eq!(r.error_code, Some(CODE_OVER_CAPACITY));
    assert_eq!(ns.channel_sockets_count(c), 1);
}

#[test]
fn presence_join_enforces_member_size_cap() {
    let mut app = test_app();
    app.max_presence_member_size_in_kb = 0;
    let mut ns = ns_with(&["1.1"]);
    let c = "presence-room";
    let auth = auth_for(&app, &format!("1.1:{}:d", c));
    let r = PresenceChannelManager::join(&mut ns, c, "1.1", Some(&auth), "d", member("u1"), &app);
    assert!(!r.success);
    assert_eq!(r.error_code, Some(CODE_PAYLOAD_TOO_LARGE));
    assert_eq!(ns.channel_sockets_count(c), 0);
}

#[test]
fn auth_token_round_trip_through_the_library() {
    // The library's own signer must agree with an hmac computed here.
    let sig = echoxide::auth::sign("app-secret", "1.1:private-x");
    assert_eq!(sig, hex_hmac("app-secret", "1.1:private-x"));
}

#[test]
fn hmac_sha256_matches_published_vector() {
    // RFC 4231 test case 2: key "Jefe", data "what do ya want for nothing?".
    let sig = echoxide::auth::sign("Jefe", "what do ya want for nothing?");
    assert_eq!(
        sig,
        "5bdcc146bf60754e6a042426089575c75a003f089d2739839dec58b964ec3843"
    );
}
