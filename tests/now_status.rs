use bstt::day::{Event, Slot};
use bstt::status::{project_status, render_status, status_line, Status};

const DAY0: i64 = 1709510400; // 2024-03-04T00:00:00Z
const H: i64 = 3600;
const M: i64 = 60;

fn ev(title: &str, location: &str, start: &str, end: &str) -> Event {
    Event {
        title: title.to_string(),
        event_type: "Lecture".to_string(),
        start: start.to_string(),
        end: end.to_string(),
        location: location.to_string(),
        teacher_name: Some("Dr A".to_string()),
    }
}

fn one_event() -> Vec<Event> {
    vec![ev("Data Structures Lecture", "Fry Building G.13", "2024-03-04T09:00:00Z", "2024-03-04T10:00:00Z")]
}

fn two_events() -> Vec<Event> {
    vec![
        ev("Algorithms Grp3", "Queen's Building 1.4", "2024-03-04T10:15:00Z", "2024-03-04T11:00:00Z"),
        ev("Data Structures Lecture", "Fry Building G.13", "2024-03-04T09:00:00Z", "2024-03-04T10:00:00Z"),
    ]
}

#[test]
fn interval_is_half_open() {
    let events = one_event();
    assert_eq!(status_line(&events, DAY0 + 8 * H + 59 * M, 0), "NXT DS Lec | Fry G.13 @ 09:00");
    assert_eq!(status_line(&events, DAY0 + 9 * H, 0), "CUR DS Lec | Fry G.13 END 10:00");
    assert_eq!(status_line(&events, DAY0 + 9 * H + 59 * M, 0), "CUR DS Lec | Fry G.13 END 10:00");
    assert_eq!(status_line(&events, DAY0 + 10 * H, 0), "TTB: BLK");
}

#[test]
fn after_end_the_next_event_shows() {
    let mut events = one_event();
    events.push(ev("Tutorial", "Fry Building 2.1", "2024-03-04T11:00:00Z", "2024-03-04T12:00:00Z"));
    assert_eq!(status_line(&events, DAY0 + 10 * H, 0), "NXT Tut | Fry 2.1 @ 11:00");
}

#[test]
fn border_shows_the_transition() {
    let events = two_events();
    assert_eq!(
        status_line(&events, DAY0 + 9 * H + 52 * M, 0),
        "BRD 10:00\u{2192}10:15 | Algorithms @ Queens 1.4"
    );
    assert_eq!(
        status_line(&events, DAY0 + 9 * H + 50 * M, 0),
        "BRD 10:00\u{2192}10:15 | Algorithms @ Queens 1.4"
    );
    assert_eq!(status_line(&events, DAY0 + 9 * H + 49 * M, 0), "CUR DS Lec | Fry G.13 END 10:00");
    assert_eq!(status_line(&events, DAY0 + 10 * H, 0), "NXT Algorithms | Queens 1.4 @ 10:15");
}

#[test]
fn border_without_next_event_is_current() {
    let events = one_event();
    assert_eq!(status_line(&events, DAY0 + 9 * H + 52 * M, 0), "CUR DS Lec | Fry G.13 END 10:00");
}

#[test]
fn empty_day_is_idle() {
    assert_eq!(status_line(&vec![], DAY0 + 9 * H, 0), "TTB: BLK");
    let other_day = vec![ev("X", "Y", "2024-03-05T09:00:00Z", "2024-03-05T10:00:00Z")];
    assert_eq!(status_line(&other_day, DAY0 + 9 * H, 0), "TTB: BLK");
    assert_eq!(status_line(&vec![], 0, 0), "TTB: BLK");
}

#[test]
fn local_offset_shifts_clock_text() {
    let events = one_event();
    assert_eq!(status_line(&events, DAY0 + 8 * H, 3600), "NXT DS Lec | Fry G.13 @ 10:00");
}

#[test]
fn event_with_unparseable_end_is_left_out() {
    let events = vec![ev("A", "B", "2024-03-04T09:00:00Z", "")];
    assert_eq!(status_line(&events, DAY0 + 8 * H, 0), "TTB: BLK");
    assert_eq!(status_line(&events, DAY0 + 9 * H + 10 * M, 0), "TTB: BLK");
    let mut both = one_event();
    both.push(ev("A", "B", "2024-03-04T08:30:00Z", "soon"));
    assert_eq!(status_line(&both, DAY0 + 8 * H, 0), status_line(&one_event(), DAY0 + 8 * H, 0));
}

#[test]
fn projector_on_slots() {
    let slots = vec![
        Slot { index: 0, start: 100, end: 1000 },
        Slot { index: 1, start: 500, end: 800 },
        Slot { index: 2, start: 1200, end: 1300 },
    ];
    assert_eq!(project_status(&slots, 50), Status::Next(0));
    assert_eq!(project_status(&slots, 100), Status::Current(0));
    assert_eq!(project_status(&slots, 399), Status::Current(0));
    assert_eq!(project_status(&slots, 400), Status::Border(0, 1));
    assert_eq!(project_status(&slots, 600), Status::Border(0, 2));
    assert_eq!(project_status(&slots, 1000), Status::Next(2));
    assert_eq!(project_status(&slots, 1300), Status::Idle);
    assert_eq!(project_status(&vec![], 5), Status::Idle);
}

#[test]
fn render_on_given_listing() {
    let events = two_events();
    let slots = vec![
        Slot { index: 1, start: DAY0 + 9 * H, end: DAY0 + 10 * H },
        Slot { index: 0, start: DAY0 + 10 * H + 15 * M, end: DAY0 + 11 * H },
    ];
    assert_eq!(render_status(&events, &slots, DAY0 + 9 * H + 30 * M, 0), "CUR DS Lec | Fry G.13 END 10:00");
}
