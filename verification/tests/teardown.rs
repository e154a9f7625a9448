use echoxide::app::App;
use echoxide::namespace::Namespace;
use echoxide::session::on_close;
use echoxide::socket::{PresenceMemberInfo, WebSocket};

use hmac::Mac;

fn hex_hmac(secret: &str, message: &str) -> String {
    let mut mac = hmac::Hmac::<sha2::Sha256>::new_from_slice(secret.as_bytes()).unwrap();
    mac.update(message.as_bytes());
    let out = mac.finalize().into_bytes();
    let mut s = String::new();
    for b in out.iter() {
        s.push_str(&format!("{:02x}", b));
    }
    s
}

fn presence_join(ns: &mut Namespace, app: &App, sid: &str, channel: &str, uid: &str) {
    let data = format!("{{\"user_id\":\"{}\"}}", uid);
    let auth = format!(
        "{}:{}",
        app.key,
        hex_hmac(&app.secret, &format!("{}:{}:{}", sid, channel, data))
    );
    let r = echoxide::channels::PresenceChannelManager::join(
        ns,
        channel,
        sid,
        Some(&auth),
        &data,
        PresenceMemberInfo { user_id: uid.to_string(), user_info: None },
        app,
    );
    assert!(r.success);
}

#[test]
fn disconnect_broadcasts_member_removed_for_the_last_socket() {
    let app = App::new("app1".to_string(), "key".to_string(), "app-secret".to_string());
    let mut ns = Namespace::new("app1".to_string());
    for sid in ["1.1", "2.2", "3.3"] {
        assert!(ns.add_socket(WebSocket::new(sid.to_string())));
    }
    let c = "presence-room";
    presence_join(&mut ns, &app, "1.1", c, "u1");
    presence_join(&mut ns, &app, "2.2", c, "u1");
    presence_join(&mut ns, &app, "3.3", c, "u2");

    // B (u1) goes away: u1 still present through A, nobody is told.
    let eff = on_close(&mut ns, "2.2");
    assert!(eff.broadcasts.is_empty());
    assert!(ns.get_socket("2.2").is_none());

    // A (u1) goes away: u1's last socket; the remaining socket hears it.
    let eff = on_close(&mut ns, "1.1");
    assert_eq!(eff.broadcasts.len(), 1);
    let (targets, frame) = &eff.broadcasts[0];
    assert_eq!(targets, &vec!["3.3".to_string()]);
    assert_eq!(
        String::from_utf8(frame.clone()).unwrap(),
        "{\"event\":\"pusher_internal:member_removed\",\"channel\":\"presence-room\",\"data\":\"{\\\"user_id\\\":\\\"u1\\\"}\"}"
    );
    assert_eq!(ns.channel_members_count(c), 1);
}

#[test]
fn disconnect_of_a_plain_subscriber_notifies_nobody() {
    let mut ns = Namespace::new("app1".to_string());
    assert!(ns.add_socket(WebSocket::new("1.1".to_string())));
    ns.add_to_channel("chat", "1.1", None);
    let eff = on_close(&mut ns, "1.1");
    assert!(eff.broadcasts.is_empty());
    assert_eq!(ns.channel_sockets_count("chat"), 0);
    // An unknown id changes nothing.
    let eff = on_close(&mut ns, "9.9");
    assert!(eff.broadcasts.is_empty());
}

#[test]
fn terminate_user_frames_pair_each_socket_with_4009() {
    let mut ad = echoxide::adapters::LocalAdapter::new();
    for sid in ["1.1", "2.2", "3.3"] {
        assert!(ad.add_socket("app1", WebSocket::new(sid.to_string())));
    }
    assert!(ad.add_user("app1", "1.1", echoxide::socket::User { id: "u1".to_string() }));
    assert!(ad.add_user("app1", "2.2", echoxide::socket::User { id: "u1".to_string() }));
    let frames = ad.terminate_user_frames("app1", "u1");
    assert_eq!(frames.len(), 2);
    let mut ids: Vec<String> = frames.iter().map(|p| p.0.clone()).collect();
    ids.sort();
    assert_eq!(ids, vec!["1.1".to_string(), "2.2".to_string()]);
    for (_sid, frame) in &frames {
        let text = String::from_utf8(frame.clone()).unwrap();
        assert!(text.contains("pusher:error"));
        assert!(text.contains("4009"));
    }
    assert!(ad.terminate_user_frames("app1", "u9").is_empty());
}

#[test]
fn api_signatures_are_checked_exactly() {
    let secret = "app-secret";
    let message = "POST\n/apps/app1/events\nauth_key=key&auth_timestamp=1700000000&auth_version=1.0";
    let sig = hex_hmac(secret, message);
    assert!(echoxide::auth::valid_api_signature(
        &sig,
        secret,
        "POST",
        "/apps/app1/events",
        "auth_key=key&auth_timestamp=1700000000&auth_version=1.0"
    ));
    assert!(!echoxide::auth::valid_api_signature(
        "deadbeef",
        secret,
        "POST",
        "/apps/app1/events",
        "auth_key=key&auth_timestamp=1700000000&auth_version=1.0"
    ));
    assert!(!echoxide::auth::valid_api_signature(
        &sig,
        secret,
        "GET",
        "/apps/app1/events",
        "auth_key=key&auth_timestamp=1700000000&auth_version=1.0"
    ));
}

#[test]
fn presence_member_size_cap_measures_bytes() {
    let mut app = App::new("app1".to_string(), "key".to_string(), "app-secret".to_string());
    app.max_presence_member_size_in_kb = 1;
    let mut ns = Namespace::new("app1".to_string());
    assert!(ns.add_socket(WebSocket::new("1.1".to_string())));
    let c = "presence-room";
    // 513 two-byte characters: 513 characters but 1026 bytes, over a 1 KB cap.
    let data = "\u{e9}".repeat(513);
    let auth = format!(
        "{}:{}",
        app.key,
        hex_hmac(&app.secret, &format!("1.1:{}:{}", c, data))
    );
    let r = echoxide::channels::PresenceChannelManager::join(
        &mut ns,
        c,
        "1.1",
        Some(&auth),
        &data,
        PresenceMemberInfo { user_id: "u1".to_string(), user_info: None },
        &app,
    );
    assert!(!r.success);
    assert_eq!(r.error_code, Some(echoxide::channels::CODE_PAYLOAD_TOO_LARGE));
}
