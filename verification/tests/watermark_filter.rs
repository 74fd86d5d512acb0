use netbird_loki_exporter::models::Event;
use netbird_loki_exporter::timestamp::Timestamp;
use netbird_loki_exporter::watermark::select_new;

fn event(id: &str, timestamp: &str) -> Event {
    Event {
        id: id.to_string(),
        timestamp: timestamp.to_string(),
        activity: "user_joined".to_string(),
        activity_code: "user.join".to_string(),
        initiator_id: None,
        initiator_email: None,
        initiator_name: None,
        target_id: None,
        account_id: Some("acc1".to_string()),
        meta: None,
    }
}

fn ids(events: &[Event]) -> Vec<String> {
    events.iter().map(|e| e.id.clone()).collect()
}

const JAN_1: Timestamp = Timestamp { secs: 1_672_531_200, nanos: 0 };
const JAN_2: Timestamp = Timestamp { secs: 1_672_617_600, nanos: 0 };

#[test]
fn empty_batch_selects_nothing_and_keeps_no_watermark() {
    let (events, watermark) = select_new(Vec::new(), None);
    assert!(events.is_empty());
    assert_eq!(watermark, None);
}

#[test]
fn empty_batch_keeps_the_watermark() {
    let (events, watermark) = select_new(Vec::new(), Some(JAN_1));
    assert!(events.is_empty());
    assert_eq!(watermark, Some(JAN_1));
}

#[test]
fn first_batch_passes_and_sets_the_watermark() {
    let (events, watermark) = select_new(vec![event("1", "2023-01-01T00:00:00Z")], None);
    assert_eq!(ids(&events), vec!["1"]);
    assert_eq!(watermark, Some(JAN_1));
}

#[test]
fn only_the_newer_event_passes() {
    let batch = vec![event("1", "2023-01-01T00:00:00Z"), event("2", "2023-01-02T00:00:00Z")];
    let (events, watermark) = select_new(batch, Some(JAN_1));
    assert_eq!(ids(&events), vec!["2"]);
    assert_eq!(watermark, Some(JAN_2));
}

#[test]
fn all_delivered_batch_selects_nothing() {
    let batch = vec![event("1", "2023-01-01T00:00:00Z"), event("2", "2023-01-02T00:00:00Z")];
    let (events, watermark) = select_new(batch, Some(JAN_2));
    assert!(events.is_empty());
    assert_eq!(watermark, Some(JAN_2));
}

#[test]
fn unreadable_timestamp_is_left_out() {
    let batch = vec![event("bad", "not-a-date"), event("1", "2023-01-01T00:00:00Z")];
    let (events, watermark) = select_new(batch, None);
    assert_eq!(ids(&events), vec!["1"]);
    assert_eq!(watermark, Some(JAN_1));
}

#[test]
fn unreadable_timestamp_alone_moves_nothing() {
    let (events, watermark) = select_new(vec![event("bad", "not-a-date")], None);
    assert!(events.is_empty());
    assert_eq!(watermark, None);
    let (events, watermark) = select_new(vec![event("bad", "not-a-date")], Some(JAN_1));
    assert!(events.is_empty());
    assert_eq!(watermark, Some(JAN_1));
}

#[test]
fn unsorted_batch_comes_out_ascending() {
    let batch = vec![
        event("c", "2023-01-03T00:00:00Z"),
        event("a", "2023-01-01T00:00:00Z"),
        event("d", "2023-01-04T00:00:00Z"),
        event("b", "2023-01-02T00:00:00Z"),
    ];
    let (events, watermark) = select_new(batch, None);
    assert_eq!(ids(&events), vec!["a", "b", "c", "d"]);
    assert_eq!(watermark, Some(Timestamp { secs: 1_672_790_400, nanos: 0 }));
}

#[test]
fn order_goes_by_instant_not_by_text() {
    // 23:30 at +02:00 is 21:30 UTC, earlier than 22:00 UTC.
    let batch = vec![
        event("utc", "2023-01-01T22:00:00Z"),
        event("east", "2023-01-01T23:30:00+02:00"),
    ];
    let (events, watermark) = select_new(batch, None);
    assert_eq!(ids(&events), vec!["east", "utc"]);
    assert_eq!(watermark, Some(Timestamp { secs: 1_672_610_400, nanos: 0 }));
}

#[test]
fn equal_instants_keep_batch_order() {
    let batch = vec![
        event("late", "2023-01-02T00:00:00Z"),
        event("first", "2023-01-01T00:00:00Z"),
        event("second", "2023-01-01T01:00:00+01:00"),
        event("third", "2023-01-01T00:00:00+00:00"),
    ];
    let (events, _) = select_new(batch, None);
    assert_eq!(ids(&events), vec!["first", "second", "third", "late"]);
}

#[test]
fn event_at_the_watermark_is_excluded() {
    let batch = vec![
        event("at", "2023-01-01T00:00:00Z"),
        event("just_after", "2023-01-01T00:00:00.000000001Z"),
    ];
    let (events, watermark) = select_new(batch, Some(JAN_1));
    assert_eq!(ids(&events), vec!["just_after"]);
    assert_eq!(watermark, Some(Timestamp { secs: 1_672_531_200, nanos: 1 }));
}

#[test]
fn selecting_twice_gives_the_same() {
    let batch = vec![
        event("b", "2023-01-02T00:00:00Z"),
        event("bad", "not-a-date"),
        event("a", "2023-01-01T12:00:00Z"),
    ];
    let (first, first_mark) = select_new(batch.clone(), Some(JAN_1));
    let (second, second_mark) = select_new(batch, Some(JAN_1));
    assert_eq!(ids(&first), ids(&second));
    assert_eq!(ids(&first), vec!["a", "b"]);
    assert_eq!(first_mark, second_mark);
}

#[test]
fn watermark_never_moves_back() {
    let batch = vec![event("old", "2022-06-01T00:00:00Z")];
    let (events, watermark) = select_new(batch, Some(JAN_1));
    assert!(events.is_empty());
    assert_eq!(watermark, Some(JAN_1));
}

#[test]
fn timestamp_order_is_by_seconds_then_nanoseconds() {
    let a = Timestamp { secs: 5, nanos: 900 };
    let b = Timestamp { secs: 6, nanos: 0 };
    let c = Timestamp { secs: 6, nanos: 1 };
    assert!(a.before(&b));
    assert!(b.before(&c));
    assert!(!c.before(&b));
    assert!(!b.before(&b));
    assert!(Timestamp { secs: -1, nanos: 0 }.before(&Timestamp { secs: 0, nanos: 0 }));
}
