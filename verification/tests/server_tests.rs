use livegrid::edge::EdgeCache;
use livegrid::edit::{handle_edit, error_body, success_body, EditError, UpdateRequest};
use livegrid::feed::{parse_record, published_line};
use livegrid::limits::RateLimitSet;
use livegrid::region::Region;
use livegrid::router::{ClientMessage, Connection, InboundAction};
use livegrid::wire::{encode_cell, encode_region};
use livegrid::cell::CellRecord;

fn record(id: i64, raw: &str, comp: &str) -> CellRecord {
    CellRecord {
        id,
        raw_value: raw.to_string(),
        computed_value: comp.to_string(),
        background: 0,
    }
}

fn line(id: i64, raw: &str, comp: &str) -> String {
    let mut t = encode_cell(&record(id, raw, comp));
    t.push('\n');
    t
}

#[test]
fn edge_cache_serves_seeded_regions_like_upstream() {
    let mut edge = EdgeCache::new();
    for id in [30i64, 10, 20] {
        edge.insert_cell(record(id, "r", "c"));
    }
    // the query inside the seeded front range serves straight from memory,
    // identical to what an ad hoc query over the same rows would return
    let got = edge.query(Region { from: 10, to: 25 }).expect("inside the front range");
    let want = format!("{}{}", line(10, "r", "c"), line(20, "r", "c"));
    assert_eq!(got, want);
    // outside the seeded union the caller must delegate upstream
    assert!(edge.query(Region { from: 0, to: 200_000 }).is_none());
    assert!(edge.query(Region { from: 500_000, to: 500_100 }).is_none());
}

#[test]
fn edge_cache_overwrites_and_keeps_order() {
    let mut edge = EdgeCache::new();
    edge.insert_cell(record(10, "a", "1"));
    edge.insert_cell(record(20, "b", "2"));
    edge.insert_cell(record(10, "a2", "9"));
    let got = edge.query(Region { from: 0, to: 100 }).unwrap();
    let want = format!("{}{}", line(10, "a2", "9"), line(20, "b", "2"));
    assert_eq!(got, want);
}

#[test]
fn edge_cache_seeds_from_a_snapshot_and_skips_garbage() {
    let mut edge = EdgeCache::new();
    let snapshot = format!("{}junk\n{}", line(1, "x", "1"), line(2, "y", "2"));
    edge.seed(&snapshot);
    let got = edge.query(Region { from: 0, to: 10 }).unwrap();
    assert_eq!(got, format!("{}{}", line(1, "x", "1"), line(2, "y", "2")));
}

#[test]
fn seeding_later_lines_overwrite_earlier_ones() {
    let mut edge = EdgeCache::new();
    let snapshot = format!("{}{}", line(5, "old", "1"), line(5, "new", "2"));
    edge.seed(&snapshot);
    assert_eq!(edge.query(Region { from: 0, to: 10 }).unwrap(), line(5, "new", "2"));
}

#[test]
fn edge_cache_applies_only_changes_in_its_ranges() {
    let mut edge = EdgeCache::new();
    edge.apply_change(encode_cell(&record(50, "in", "front")).as_str());
    edge.apply_change(encode_cell(&record(1_039_900_005, "in", "back")).as_str());
    edge.apply_change(encode_cell(&record(500_000, "outside", "x")).as_str());
    edge.apply_change("malformed");
    assert_eq!(
        edge.query(Region { from: 0, to: 100 }).unwrap(),
        line(50, "in", "front")
    );
    assert_eq!(
        edge.query(Region { from: 1_039_900_000, to: 1_039_900_100 }).unwrap(),
        line(1_039_900_005, "in", "back")
    );
}

#[test]
fn changes_outside_the_active_region_are_never_forwarded() {
    let mut conn = Connection::start();
    // the default region is [0, 2500)
    let inside = encode_cell(&record(42, "r", "c"));
    let outside = encode_cell(&record(6000, "r", "c"));
    assert_eq!(conn.filter_change(&inside).as_deref(), Some(inside.as_str()));
    assert!(conn.filter_change(&outside).is_none());
    assert!(conn.filter_change("not a cell").is_none());
    // after a resubscription the same changes filter the other way
    let msg = ClientMessage::Text(encode_region(Region { from: 5000, to: 7500 }));
    conn.on_client_message(&msg);
    assert!(conn.filter_change(&inside).is_none());
    assert_eq!(conn.filter_change(&outside).as_deref(), Some(outside.as_str()));
}

#[test]
fn subscribe_snapshot_update_resubscribe_end_to_end() {
    // the seeded front holds rows 0..2500
    let mut edge = EdgeCache::new();
    let mut want = String::new();
    for id in 0..2500i64 {
        edge.insert_cell(record(id, "r", "c"));
        want.push_str(&line(id, "r", "c"));
    }
    let mut conn = Connection::start();
    // the client subscribes to [0, 2500); the server answers with exactly
    // the seeded rows
    let sub = ClientMessage::Text(encode_region(Region { from: 0, to: 2500 }));
    let action = conn.on_client_message(&sub);
    let region = match action {
        InboundAction::Subscribe(r) => r,
        _ => panic!("a region request must subscribe"),
    };
    let snapshot = edge.query(region).expect("the region is fully seeded");
    assert_eq!(snapshot, want);
    // an upstream edit to id 42 reaches this client
    let edit42 = encode_cell(&record(42, "=6*7", "42"));
    assert!(conn.filter_change(&edit42).is_some());
    // after resubscribing to [5000, 7500), id 42 is filtered out and id
    // 6000 is delivered
    let resub = ClientMessage::Text(encode_region(Region { from: 5000, to: 7500 }));
    conn.on_client_message(&resub);
    assert!(conn.filter_change(&edit42).is_none());
    let edit6000 = encode_cell(&record(6000, "x", "y"));
    assert!(conn.filter_change(&edit6000).is_some());
}

#[test]
fn malformed_and_closing_messages() {
    let mut conn = Connection::start();
    assert_eq!(
        conn.on_client_message(&ClientMessage::Text("garbage".to_string())),
        InboundAction::Ignore
    );
    assert_eq!(conn.on_client_message(&ClientMessage::Other), InboundAction::Ignore);
    assert_eq!(conn.on_client_message(&ClientMessage::Close), InboundAction::Disconnect);
    // none of those touched the active region
    let inside = encode_cell(&record(1, "r", "c"));
    assert!(conn.filter_change(&inside).is_some());
}

#[test]
fn feed_republishes_the_most_recent_insert() {
    let a = encode_cell(&record(1, "old", "1"));
    let b = encode_cell(&record(1, "new", "2"));
    // a delete right before an insert is a replacement: the insert wins
    let text = format!(
        "{{\"sequence_number\":7,\"json_data\":[{{\"delete\":{}}},{{\"insert\":{}}}]}}",
        a, b
    );
    let rec = parse_record(&text).expect("canonical record must parse");
    assert_eq!(rec.sequence_number, 7);
    let published = published_line(&rec).expect("the record holds an insert");
    assert_eq!(published, format!("{}\n", b));
}

#[test]
fn feed_scans_changes_from_the_end() {
    let a = encode_cell(&record(1, "first", "1"));
    let b = encode_cell(&record(2, "second", "2"));
    let text = format!(
        "{{\"sequence_number\":1,\"json_data\":[{{\"insert\":{}}},{{\"insert\":{}}},{{\"delete\":{}}}]}}",
        a, b, a
    );
    let rec = parse_record(&text).expect("canonical record must parse");
    // the trailing delete is skipped; the later of the two inserts wins
    assert_eq!(published_line(&rec).unwrap(), format!("{}\n", b));
}

#[test]
fn feed_without_inserts_publishes_nothing() {
    let a = encode_cell(&record(1, "gone", "1"));
    let text = format!("{{\"sequence_number\":2,\"json_data\":[{{\"delete\":{}}}]}}", a);
    let rec = parse_record(&text).expect("canonical record must parse");
    assert!(published_line(&rec).is_none());
    let empty = "{\"sequence_number\":3,\"json_data\":[]}";
    assert!(published_line(&parse_record(empty).unwrap()).is_none());
}

#[test]
fn feed_rejects_malformed_records() {
    assert!(parse_record("").is_none());
    assert!(parse_record("{\"sequence_number\":1}").is_none());
    assert!(parse_record("{\"sequence_number\":1,\"json_data\":[{\"upsert\":{}}]}").is_none());
}

#[test]
fn edit_above_the_id_bound_is_rejected() {
    let limits = RateLimitSet::new();
    let req = UpdateRequest { id: 1_040_000_000, raw_value: "x".to_string(), background: 0 };
    assert!(matches!(handle_edit(&limits, "1.2.3.4", req), Err(EditError::InvalidId)));
    let req = UpdateRequest { id: -1, raw_value: "x".to_string(), background: 0 };
    assert!(matches!(handle_edit(&limits, "1.2.3.4", req), Err(EditError::InvalidId)));
    // one below the bound passes
    let req = UpdateRequest { id: 999_999_999, raw_value: "x".to_string(), background: 0 };
    assert!(handle_edit(&limits, "1.2.3.4", req).is_ok());
}

#[test]
fn edit_values_keep_exactly_their_first_64_characters() {
    let limits = RateLimitSet::new();
    let long: String = "ab".repeat(50);
    assert_eq!(long.chars().count(), 100);
    let req = UpdateRequest { id: 1, raw_value: long.clone(), background: 5 };
    let payload = handle_edit(&limits, "1.2.3.4", req).expect("a valid edit");
    assert_eq!(payload.raw_value, long.chars().take(64).collect::<String>());
    assert_eq!(payload.raw_value.chars().count(), 64);
    assert_eq!(payload.id, 1);
    assert_eq!(payload.background, 5);
    assert_eq!(payload.ip, "1.2.3.4");
}

#[test]
fn rate_limited_clients_are_refused() {
    let mut limits = RateLimitSet::new();
    limits.insert("9.9.9.9".to_string());
    let req = UpdateRequest { id: 1, raw_value: "x".to_string(), background: 0 };
    assert!(matches!(handle_edit(&limits, "9.9.9.9", req), Err(EditError::RateLimited)));
    // removal lifts the limit
    limits.remove("9.9.9.9");
    let req = UpdateRequest { id: 1, raw_value: "x".to_string(), background: 0 };
    assert!(handle_edit(&limits, "9.9.9.9", req).is_ok());
}

#[test]
fn client_addresses_are_clipped_before_the_limit_check() {
    let mut limits = RateLimitSet::new();
    let long_ip = "a".repeat(60);
    let clipped: String = long_ip.chars().take(45).collect();
    limits.insert(clipped.clone());
    let req = UpdateRequest { id: 1, raw_value: "x".to_string(), background: 0 };
    assert!(matches!(handle_edit(&limits, &long_ip, req), Err(EditError::RateLimited)));
}

#[test]
fn rate_limit_set_rebuilds_from_clear() {
    let mut limits = RateLimitSet::new();
    limits.insert("a".to_string());
    limits.insert("a".to_string());
    limits.insert("b".to_string());
    assert!(limits.contains("a"));
    limits.clear();
    assert!(!limits.contains("a"));
    assert!(!limits.contains("b"));
}

#[test]
fn response_bodies_are_fixed() {
    assert_eq!(success_body(), "{\"success\":true}");
    assert_eq!(error_body(EditError::RateLimited), "{\"error\":\"API limit exceeded\"}");
    assert_eq!(error_body(EditError::InvalidId), "{\"error\":\"Invalid cell ID\"}");
}
