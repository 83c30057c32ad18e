use bstt::day::{events_on_day, parse_span, select_day, Event, Span};
use bstt::time::{local_day, parse_instant};

const DAY0: i64 = 1709510400; // 2024-03-04T00:00:00Z

fn ev(title: &str, start: &str, end: &str) -> Event {
    Event {
        title: title.to_string(),
        event_type: "Lecture".to_string(),
        start: start.to_string(),
        end: end.to_string(),
        location: "Fry Building".to_string(),
        teacher_name: None,
    }
}

#[test]
fn parses_rfc3339_instants() {
    assert_eq!(parse_instant("2024-03-04T09:00:00Z"), Some(DAY0 + 9 * 3600));
    assert_eq!(parse_instant("2024-03-04T10:00:00+01:00"), Some(DAY0 + 9 * 3600));
    assert_eq!(parse_instant("not a time"), None);
    assert_eq!(parse_instant(""), None);
}

#[test]
fn local_day_uses_floor_division() {
    assert_eq!(local_day(DAY0, 0), 19786);
    assert_eq!(local_day(DAY0 - 1, 0), 19785);
    assert_eq!(local_day(DAY0 - 1, 3600), 19786);
    assert_eq!(local_day(-1, 0), -1);
    assert_eq!(local_day(i64::MIN, 0), -106751991167301);
}

#[test]
fn selects_and_orders_one_day() {
    let events = vec![
        ev("C", "2024-03-04T14:00:00Z", "2024-03-04T15:00:00Z"),
        ev("X", "2024-03-05T09:00:00Z", "2024-03-05T10:00:00Z"),
        ev("A", "2024-03-04T09:00:00Z", "2024-03-04T10:00:00Z"),
        ev("bad", "garbage", "2024-03-04T10:00:00Z"),
        ev("B", "2024-03-04T11:00:00Z", "nope"),
    ];
    let slots = events_on_day(&events, 0, 19786);
    let idx: Vec<usize> = slots.iter().map(|s| s.index).collect();
    assert_eq!(idx, vec![2, 0]);
    assert_eq!(slots[0].start, DAY0 + 9 * 3600);
    assert_eq!(slots[0].end, DAY0 + 10 * 3600);
}

#[test]
fn local_offset_moves_an_event_to_the_next_day() {
    let events = vec![ev("Late", "2024-03-04T23:30:00Z", "2024-03-05T00:30:00Z")];
    assert_eq!(events_on_day(&events, 0, 19786).len(), 1);
    assert_eq!(events_on_day(&events, 3600, 19786).len(), 0);
    assert_eq!(events_on_day(&events, 3600, 19787).len(), 1);
}

#[test]
fn select_day_on_spans_keeps_equal_starts() {
    let spans = vec![
        Span { start: Some(DAY0 + 50), end: Some(DAY0 + 60) },
        Span { start: None, end: Some(DAY0) },
        Span { start: Some(DAY0 + 10), end: Some(DAY0 + 60) },
        Span { start: Some(DAY0 + 50), end: Some(DAY0 + 70) },
        Span { start: Some(DAY0 + 5), end: None },
    ];
    let slots = select_day(&spans, 0, 19786);
    let idx: Vec<usize> = slots.iter().map(|s| s.index).collect();
    assert_eq!(idx, vec![2, 0, 3]);
    assert_eq!(select_day(&vec![], 0, 19786).len(), 0);
}

#[test]
fn parse_span_reads_both_ends() {
    let e = ev("A", "2024-03-04T09:00:00Z", "x");
    assert_eq!(parse_span(&e), Span { start: Some(DAY0 + 9 * 3600), end: None });
}
