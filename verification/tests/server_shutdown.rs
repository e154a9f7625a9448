use echoxide::adapters::LocalAdapter;
use echoxide::server::Server;
use echoxide::socket::WebSocket;

#[test]
fn defaults_match_the_documented_configuration() {
    let s = Server::new();
    assert!(!s.closing);
    assert!(s.accepting());
    assert_eq!(s.options.port, 6001);
    assert!(s.options.debug);
    assert_eq!(s.options.metrics.port, 9601);
    assert_eq!(s.options.metrics.prometheus.prefix, "echoxide_");
    assert_eq!(s.options.adapter.driver, "local");
    assert_eq!(s.options.app_manager.driver, "array");
    let s = s.get_instance();
    assert!(!s.closing);
}

#[test]
fn stop_enters_the_closing_state() {
    let mut s = Server::new();
    s.stop();
    assert!(s.closing);
    assert!(!s.accepting());
}

#[test]
fn shutdown_tells_every_socket_with_code_4200() {
    let mut ad = LocalAdapter::new();
    for i in 0..100u32 {
        assert!(ad.add_socket("app1", WebSocket::new(format!("7.{}", i))));
    }
    let mut s = Server::new();
    s.stop();
    let frames = s.shutdown_frames(&ad);
    assert_eq!(frames.len(), 100);
    let mut seen: Vec<String> = frames.iter().map(|f| f.1.clone()).collect();
    seen.sort();
    seen.dedup();
    assert_eq!(seen.len(), 100);
    for (app, _sid, frame) in &frames {
        assert_eq!(app, "app1");
        let text = String::from_utf8(frame.clone()).unwrap();
        assert_eq!(
            text,
            "{\"event\":\"pusher:error\",\"data\":\"{\\\"code\\\":4200,\\\"message\\\":\\\"Server is closing. Please reconnect shortly.\\\"}\"}"
        );
    }
}
