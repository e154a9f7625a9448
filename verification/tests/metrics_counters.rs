use echoxide::metrics::MetricsRegistry;

#[test]
fn connection_counters_move_exactly() {
    let mut m = MetricsRegistry::new();
    m.mark_new_connection("app1");
    m.mark_new_connection("app1");
    m.mark_new_connection("app2");
    m.mark_disconnection("app1");
    let a1 = m.get_app_metrics("app1");
    assert_eq!(a1.connected_sockets, 1);
    assert_eq!(a1.new_connections_total, 2);
    assert_eq!(a1.new_disconnections_total, 1);
    let a2 = m.get_app_metrics("app2");
    assert_eq!(a2.connected_sockets, 1);
    // A disconnect below zero clamps the gauge.
    m.mark_disconnection("app1");
    m.mark_disconnection("app1");
    assert_eq!(m.get_app_metrics("app1").connected_sockets, 0);
}

#[test]
fn traffic_counters_add_bytes() {
    let mut m = MetricsRegistry::new();
    m.mark_ws_message_received("app1", 17);
    m.mark_ws_message_sent("app1", 40);
    m.mark_ws_message_sent("app1", 2);
    m.mark_api_message("app1", 100, 250);
    let a = m.get_app_metrics("app1");
    assert_eq!(a.socket_bytes_received, 17);
    assert_eq!(a.ws_messages_received, 1);
    assert_eq!(a.socket_bytes_transmitted, 42);
    assert_eq!(a.ws_messages_sent, 2);
    assert_eq!(a.http_bytes_received, 100);
    assert_eq!(a.http_bytes_transmitted, 250);
    assert_eq!(a.http_calls_received, 1);
}

#[test]
fn horizontal_counters_move_exactly() {
    let mut m = MetricsRegistry::new();
    m.mark_horizontal_adapter_request_sent("app1");
    m.mark_horizontal_adapter_request_received("app1");
    m.mark_horizontal_adapter_response_received("app1");
    m.track_horizontal_adapter_resolve_time("app1", 120);
    m.track_horizontal_adapter_resolve_time("app1", 80);
    m.track_horizontal_adapter_resolved_promises("app1", true);
    let a = m.get_app_metrics("app1");
    assert_eq!(a.horizontal_adapter_sent_requests, 1);
    assert_eq!(a.horizontal_adapter_received_requests, 1);
    assert_eq!(a.horizontal_adapter_received_responses, 1);
    assert_eq!(a.horizontal_adapter_resolve_time_total, 200);
    assert_eq!(a.horizontal_adapter_resolve_time_count, 2);
    assert_eq!(a.horizontal_adapter_resolved_promises, 1);
    assert_eq!(a.horizontal_adapter_uncomplete_promises, 0);
}

#[test]
fn clear_forgets_everything() {
    let mut m = MetricsRegistry::new();
    m.mark_new_connection("app1");
    m.clear();
    assert_eq!(m.get_app_metrics("app1").new_connections_total, 0);
}

#[test]
fn plaintext_rendering_shows_each_family() {
    let mut m = MetricsRegistry::new();
    m.mark_new_connection("app1");
    m.mark_ws_message_received("app1", 9);
    let text = String::from_utf8(m.get_metrics_as_plaintext()).unwrap();
    assert!(text.contains("# TYPE connected_sockets counter\nconnected_sockets{app_id=\"app1\"} 1\n"));
    assert!(text.contains("new_connections_total{app_id=\"app1\"} 1\n"));
    assert!(text.contains("socket_bytes_received{app_id=\"app1\"} 9\n"));
    assert!(text.contains("ws_messages_received{app_id=\"app1\"} 1\n"));
    assert!(text.contains("# TYPE horizontal_adapter_uncomplete_promises counter\nhorizontal_adapter_uncomplete_promises{app_id=\"app1\"} 0\n"));
}
