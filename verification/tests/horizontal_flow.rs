use echoxide::horizontal::{RequestTable, RequestType};
use echoxide::metrics::MetricsRegistry;

#[test]
fn completed_count_query_sums_the_peers() {
    // Two nodes, three sockets each: this node holds 3 and one peer owes a
    // reply.
    let mut table = RequestTable::new("n1".to_string());
    let rid = table.next_request_id();
    table.start_request(rid.clone(), RequestType::CountChannelSockets, "app1".to_string(), 1, 5000, 3);
    assert!(!table.is_complete(&rid));
    let done = table.on_count_response(&rid, 3);
    assert_eq!(done, Some(6));
    assert_eq!(table.pending_count(), 0);
}

#[test]
fn partial_count_query_returns_the_local_value() {
    // The peer is partitioned: the deadline hands back the partial sum and
    // the incomplete-promise counter moves by one.
    let mut table = RequestTable::new("n1".to_string());
    let rid = table.next_request_id();
    table.start_request(rid.clone(), RequestType::CountChannelSockets, "app1".to_string(), 1, 5000, 3);
    let given_up = table.on_deadline(&rid);
    assert_eq!(given_up, Some((3, 0)));
    assert_eq!(table.pending_count(), 0);

    let mut metrics = MetricsRegistry::new();
    let before = metrics.get_app_metrics("app1").horizontal_adapter_uncomplete_promises;
    metrics.track_horizontal_adapter_resolved_promises("app1", false);
    let after = metrics.get_app_metrics("app1").horizontal_adapter_uncomplete_promises;
    assert_eq!(after, before + 1);
}

#[test]
fn replies_accumulate_until_the_last_peer() {
    let mut table = RequestTable::new("n1".to_string());
    let rid = table.next_request_id();
    table.start_request(rid.clone(), RequestType::CountSockets, "app1".to_string(), 3, 5000, 10);
    assert_eq!(table.on_count_response(&rid, 1), None);
    assert_eq!(table.on_count_response(&rid, 2), None);
    assert_eq!(table.on_count_response(&rid, 4), Some(17));
    // A late reply to a settled request is ignored.
    assert_eq!(table.on_count_response(&rid, 9), None);
}

#[test]
fn request_ids_name_the_node_and_count_up() {
    let mut table = RequestTable::new("n1".to_string());
    assert_eq!(table.next_request_id(), "n1-0");
    assert_eq!(table.next_request_id(), "n1-1");
    assert_eq!(table.next_request_id(), "n1-2");
}

#[test]
fn own_broadcasts_are_not_applied_twice() {
    let table = RequestTable::new("n1".to_string());
    assert!(!table.should_process("n1"));
    assert!(table.should_process("n2"));
}

#[test]
fn listing_replies_merge_by_union() {
    let mut table = RequestTable::new("n1".to_string());
    let rid = table.next_request_id();
    table.start_request(rid.clone(), RequestType::Channels, "app1".to_string(), 2, 5000, 0);
    assert_eq!(
        table.on_items_response(&rid, vec!["a".to_string(), "b".to_string()]),
        None
    );
    let done = table.on_items_response(&rid, vec!["b".to_string(), "c".to_string()]);
    let mut merged = done.expect("the second reply completes the request");
    merged.sort();
    assert_eq!(merged, vec!["a".to_string(), "b".to_string(), "c".to_string()]);
    assert_eq!(table.pending_count(), 0);
}

#[test]
fn membership_replies_merge_by_disjunction() {
    let mut table = RequestTable::new("n1".to_string());
    let rid = table.next_request_id();
    table.start_request(rid.clone(), RequestType::IsInChannel, "app1".to_string(), 2, 5000, 0);
    assert_eq!(table.on_flag_response(&rid, false), None);
    assert_eq!(table.on_flag_response(&rid, true), Some(true));
    let rid = table.next_request_id();
    table.start_request(rid.clone(), RequestType::IsInChannel, "app1".to_string(), 1, 5000, 0);
    assert_eq!(table.on_flag_response(&rid, false), Some(false));
}
