use bstt::day::Event;
use bstt::table::{day_label, first_lecturer, timetable};

const DAY: i64 = 19786; // 2024-03-04

fn ev(title: &str, start: &str, end: &str, teacher: Option<&str>) -> Event {
    Event {
        title: title.to_string(),
        event_type: "Lecture".to_string(),
        start: start.to_string(),
        end: end.to_string(),
        location: "Fry Building".to_string(),
        teacher_name: teacher.map(|t| t.to_string()),
    }
}

#[test]
fn relative_day_labels() {
    assert_eq!(day_label(DAY + 1, DAY), " (Tomorrow)");
    assert_eq!(day_label(DAY - 1, DAY), " (Yesterday)");
    assert_eq!(day_label(DAY, DAY), " (Today)");
    assert_eq!(day_label(DAY + 2, DAY), "");
    assert_eq!(day_label(DAY - 7, DAY), "");
    assert_eq!(day_label(i64::MAX, i64::MIN), "");
}

#[test]
fn first_lecturer_is_trimmed() {
    assert_eq!(first_lecturer(&Some("  Dr Smith , Prof Jones".to_string())), "Dr Smith");
    assert_eq!(first_lecturer(&Some("Dr Smith".to_string())), "Dr Smith");
    assert_eq!(first_lecturer(&Some("".to_string())), "");
    assert_eq!(first_lecturer(&Some(", Dr B".to_string())), "");
    assert_eq!(first_lecturer(&None), "");
}

#[test]
fn rows_in_start_order() {
    let events = vec![
        ev("Second", "2024-03-04T11:00:00Z", "2024-03-04T12:30:00Z", Some("Dr B, Dr C")),
        ev("First", "2024-03-04T09:00:00Z", "2024-03-04T10:00:00Z", None),
        ev("Other day", "2024-03-05T09:00:00Z", "2024-03-05T10:00:00Z", None),
        ev("Open end", "2024-03-04T13:00:00Z", "later", None),
    ];
    let t = timetable(&events, 0, DAY, DAY - 1);
    assert_eq!(t.label, " (Tomorrow)");
    assert_eq!(t.rows.len(), 2);
    assert_eq!(t.rows[0].title, "First");
    assert_eq!(t.rows[0].time, "09:00 - 10:00");
    assert_eq!(t.rows[0].lecturer, "");
    assert_eq!(t.rows[1].title, "Second");
    assert_eq!(t.rows[1].time, "11:00 - 12:30");
    assert_eq!(t.rows[1].lecturer, "Dr B");
    assert_eq!(t.rows[1].kind, "Lecture");
    assert_eq!(t.rows[1].location, "Fry Building");
}

#[test]
fn no_rows_on_an_empty_day() {
    let events = vec![ev("Other day", "2024-03-05T09:00:00Z", "2024-03-05T10:00:00Z", None)];
    let t = timetable(&events, 0, DAY, DAY);
    assert_eq!(t.label, " (Today)");
    assert!(t.rows.is_empty());
}
