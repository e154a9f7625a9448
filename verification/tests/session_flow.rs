use echoxide::app::App;
use echoxide::namespace::Namespace;
use echoxide::session::{generate_socket_id, on_message, on_open, PusherMessage};
use echoxide::socket::{PresenceMemberInfo, WebSocket};

use hmac::Mac;

fn hex_hmac(secret: &str, message: &str) -> String {
    let mut mac = hmac::Hmac::<sha2::Sha256>::new_from_slice(secret.as_bytes()).unwrap();
    mac.update(message.as_bytes());
    let out = mac.finalize().into_bytes();
    let mut s = String::new();
    for b in out.iter() {
        s.push_str(&format!("{:02x}", b));
    }
    s
}

fn test_app() -> App {
    App::new("app1".to_string(), "key".to_string(), "app-secret".to_string())
}

fn msg(event: &str) -> PusherMessage {
    PusherMessage {
        event: Some(event.to_string()),
        channel: None,
        data: None,
        auth: None,
        channel_data: None,
        member: None,
        user_id: None,
        user_data: None,
    }
}

fn ns_with(ids: &[&str]) -> Namespace {
    let mut ns = Namespace::new("app1".to_string());
    for id in ids {
        assert!(ns.add_socket(WebSocket::new(id.to_string())));
    }
    ns
}

#[test]
fn open_greets_with_connection_established() {
    let eff = on_open(false, "81.42");
    assert_eq!(eff.replies.len(), 1);
    assert_eq!(
        String::from_utf8(eff.replies[0].clone()).unwrap(),
        "{\"event\":\"pusher:connection_established\",\"data\":\"{\\\"socket_id\\\":\\\"81.42\\\",\\\"activity_timeout\\\":120}\"}"
    );
    assert!(eff.reset_activity);
    assert_eq!(eff.close_code, None);
}

#[test]
fn open_while_closing_sends_4200_and_closes() {
    let eff = on_open(true, "81.42");
    assert_eq!(eff.close_code, Some(4200));
    assert_eq!(eff.replies.len(), 1);
    let text = String::from_utf8(eff.replies[0].clone()).unwrap();
    assert!(text.contains("pusher:error"));
    assert!(text.contains("4200"));
}

#[test]
fn ping_is_answered_with_pong() {
    let app = test_app();
    let mut ns = ns_with(&["1.1"]);
    let eff = on_message(&mut ns, &app, "1.1", &msg("pusher:ping"));
    assert_eq!(eff.replies.len(), 1);
    assert_eq!(
        String::from_utf8(eff.replies[0].clone()).unwrap(),
        "{\"event\":\"pusher:pong\",\"data\":\"{}\"}"
    );
    assert!(eff.reset_activity);
}

#[test]
fn pong_resets_the_timer_silently() {
    let app = test_app();
    let mut ns = ns_with(&["1.1"]);
    let eff = on_message(&mut ns, &app, "1.1", &msg("pusher:pong"));
    assert!(eff.replies.is_empty());
    assert!(eff.reset_activity);
}

#[test]
fn unknown_events_are_ignored() {
    let app = test_app();
    let mut ns = ns_with(&["1.1"]);
    let eff = on_message(&mut ns, &app, "1.1", &msg("pusher:anything"));
    assert!(eff.replies.is_empty());
    assert!(eff.broadcasts.is_empty());
    assert!(!eff.reset_activity);
    assert_eq!(eff.close_code, None);
}

#[test]
fn subscribe_public_is_acknowledged() {
    let app = test_app();
    let mut ns = ns_with(&["1.1"]);
    let mut m = msg("pusher:subscribe");
    m.channel = Some("chat".to_string());
    let eff = on_message(&mut ns, &app, "1.1", &m);
    assert_eq!(eff.replies.len(), 1);
    assert_eq!(
        String::from_utf8(eff.replies[0].clone()).unwrap(),
        "{\"event\":\"pusher_internal:subscription_succeeded\",\"channel\":\"chat\",\"data\":\"{}\"}"
    );
    assert!(ns.is_in_channel("chat", "1.1"));
}

#[test]
fn subscribe_private_with_wrong_auth_reports_4009() {
    let app = test_app();
    let mut ns = ns_with(&["1.1"]);
    let mut m = msg("pusher:subscribe");
    m.channel = Some("private-x".to_string());
    m.auth = Some("key:deadbeef".to_string());
    let eff = on_message(&mut ns, &app, "1.1", &m);
    assert_eq!(eff.replies.len(), 1);
    let text = String::from_utf8(eff.replies[0].clone()).unwrap();
    assert!(text.contains("pusher:subscription_error"));
    assert!(text.contains("4009"));
    assert!(!ns.is_in_channel("private-x", "1.1"));
}

#[test]
fn client_event_fans_out_to_the_others() {
    let app = test_app();
    let mut ns = ns_with(&["1.1", "2.2"]);
    // Both sockets join an authorized-kind channel.
    let c = "private-room";
    for sid in ["1.1", "2.2"] {
        let mut m = msg("pusher:subscribe");
        m.channel = Some(c.to_string());
        m.auth = Some(format!(
            "{}:{}",
            app.key,
            hex_hmac(&app.secret, &format!("{}:{}", sid, c))
        ));
        let eff = on_message(&mut ns, &app, sid, &m);
        assert_eq!(eff.replies.len(), 1);
    }
    let mut m = msg("client-msg");
    m.channel = Some(c.to_string());
    m.data = Some("{\"x\":1}".to_string());
    let eff = on_message(&mut ns, &app, "1.1", &m);
    assert!(eff.replies.is_empty());
    assert_eq!(eff.broadcasts.len(), 1);
    let (targets, frame) = &eff.broadcasts[0];
    assert_eq!(targets, &vec!["2.2".to_string()]);
    assert_eq!(
        String::from_utf8(frame.clone()).unwrap(),
        "{\"event\":\"client-msg\",\"channel\":\"private-room\",\"data\":\"{\\\"x\\\":1}\"}"
    );
}

#[test]
fn client_event_outside_the_channel_is_dropped() {
    let app = test_app();
    let mut ns = ns_with(&["1.1"]);
    let mut m = msg("client-msg");
    m.channel = Some("private-room".to_string());
    m.data = Some("{}".to_string());
    let eff = on_message(&mut ns, &app, "1.1", &m);
    assert!(eff.broadcasts.is_empty());
}

#[test]
fn presence_subscribe_broadcasts_member_added_to_others() {
    let app = test_app();
    let mut ns = ns_with(&["1.1", "2.2"]);
    let c = "presence-room";
    let data1 = "{\"user_id\":\"u1\"}";
    let mut m = msg("pusher:subscribe");
    m.channel = Some(c.to_string());
    m.channel_data = Some(data1.to_string());
    m.member = Some(PresenceMemberInfo { user_id: "u1".to_string(), user_info: None });
    m.auth = Some(format!(
        "{}:{}",
        app.key,
        hex_hmac(&app.secret, &format!("1.1:{}:{}", c, data1))
    ));
    let eff = on_message(&mut ns, &app, "1.1", &m);
    assert_eq!(eff.replies.len(), 1);
    let ack = String::from_utf8(eff.replies[0].clone()).unwrap();
    assert_eq!(
        ack,
        "{\"event\":\"pusher_internal:subscription_succeeded\",\"channel\":\"presence-room\",\"data\":\"{\\\"presence\\\":{\\\"ids\\\":[\\\"u1\\\"],\\\"hash\\\":{\\\"u1\\\":null},\\\"count\\\":1}}\"}"
    );
    // The first member: nobody else in the channel yet, so the broadcast
    // has no targets.
    assert_eq!(eff.broadcasts.len(), 1);
    assert!(eff.broadcasts[0].0.is_empty());

    // A second user joins: the broadcast reaches the first socket.
    let data2 = "{\"user_id\":\"u2\"}";
    let mut m = msg("pusher:subscribe");
    m.channel = Some(c.to_string());
    m.channel_data = Some(data2.to_string());
    m.member = Some(PresenceMemberInfo {
        user_id: "u2".to_string(),
        user_info: Some("{\"name\":\"Bea\"}".to_string()),
    });
    m.auth = Some(format!(
        "{}:{}",
        app.key,
        hex_hmac(&app.secret, &format!("2.2:{}:{}", c, data2))
    ));
    let eff = on_message(&mut ns, &app, "2.2", &m);
    assert_eq!(eff.broadcasts.len(), 1);
    let (targets, frame) = &eff.broadcasts[0];
    assert_eq!(targets, &vec!["1.1".to_string()]);
    assert_eq!(
        String::from_utf8(frame.clone()).unwrap(),
        "{\"event\":\"pusher_internal:member_added\",\"channel\":\"presence-room\",\"data\":\"{\\\"user_id\\\":\\\"u2\\\",\\\"user_info\\\":{\\\"name\\\":\\\"Bea\\\"}}\"}"
    );

    // u2's only socket unsubscribes: member_removed goes to the rest.
    let mut m = msg("pusher:unsubscribe");
    m.channel = Some(c.to_string());
    let eff = on_message(&mut ns, &app, "2.2", &m);
    assert_eq!(eff.broadcasts.len(), 1);
    let (targets, frame) = &eff.broadcasts[0];
    assert_eq!(targets, &vec!["1.1".to_string()]);
    assert_eq!(
        String::from_utf8(frame.clone()).unwrap(),
        "{\"event\":\"pusher_internal:member_removed\",\"channel\":\"presence-room\",\"data\":\"{\\\"user_id\\\":\\\"u2\\\"}\"}"
    );
}

#[test]
fn signin_binds_the_user() {
    let app = test_app();
    let mut ns = ns_with(&["1.1"]);
    let user_data = "{\"id\":\"u42\"}";
    let mut m = msg("pusher:signin");
    m.user_id = Some("u42".to_string());
    m.user_data = Some(user_data.to_string());
    m.auth = Some(format!(
        "{}:{}",
        app.key,
        hex_hmac(&app.secret, &format!("1.1::user::{}", user_data))
    ));
    let eff = on_message(&mut ns, &app, "1.1", &m);
    assert_eq!(eff.close_code, None);
    assert_eq!(eff.replies.len(), 1);
    let text = String::from_utf8(eff.replies[0].clone()).unwrap();
    assert!(text.contains("pusher:signin_success"));
    assert_eq!(ns.user_sockets("u42"), vec!["1.1".to_string()]);
}

#[test]
fn signin_with_bad_signature_is_refused_and_closed() {
    let app = test_app();
    let mut ns = ns_with(&["1.1"]);
    let mut m = msg("pusher:signin");
    m.user_id = Some("u42".to_string());
    m.user_data = Some("{\"id\":\"u42\"}".to_string());
    m.auth = Some("key:deadbeef".to_string());
    let eff = on_message(&mut ns, &app, "1.1", &m);
    assert_eq!(eff.close_code, Some(4009));
    assert!(ns.user_sockets("u42").is_empty());
}

#[test]
fn socket_ids_take_the_two_number_form() {
    for _ in 0..32 {
        let id = generate_socket_id();
        let parts: Vec<&str> = id.split('.').collect();
        assert_eq!(parts.len(), 2);
        let a: u64 = parts[0].parse().unwrap();
        let b: u64 = parts[1].parse().unwrap();
        assert!(a <= 10_000_000_000);
        assert!(b <= 10_000_000_000);
    }
}
