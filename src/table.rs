//! The rows and heading label of a full day's timetable.
use vstd::prelude::*;
use crate::day::{events_on_day, is_day_listing, on_day, spans_of, Event, Slot};
use crate::text::{chars_of, is_space, space, string_of};
use crate::time::{clock_text, push_clock, valid_offset};

verus! {

/// The label that names a day relative to today, by the signed number of
/// days from today to it.
pub open spec fn label_text(diff: int) -> Seq<char> {
    if diff == 0 {
        " (Today)"@
    } else if diff == 1 {
        " (Tomorrow)"@
    } else if diff == -1 {
        " (Yesterday)"@
    } else {
        ""@
    }
}

/// The label of local day `target` seen from local day `today`.
pub fn day_label(target: i64, today: i64) -> (r: String)
    ensures
        r@ == label_text(target - today),
{
    let diff: i128 = target as i128 - today as i128;
    let s = if diff == 0 {
        " (Today)"
    } else if diff == 1 {
        " (Tomorrow)"
    } else if diff == -1 {
        " (Yesterday)"
    } else {
        ""
    };
    string_of(&chars_of(s))
}

/// The text of `s` before its first comma.
pub open spec fn before_comma(s: Seq<char>) -> Seq<char>
    decreases s.len(),
{
    if s.len() == 0 {
        s
    } else if s[0] == ',' {
        seq![]
    } else {
        seq![s[0]] + before_comma(s.drop_first())
    }
}

/// `s` without leading white space.
pub open spec fn trim_start(s: Seq<char>) -> Seq<char>
    decreases s.len(),
{
    if s.len() > 0 && is_space(s[0]) {
        trim_start(s.drop_first())
    } else {
        s
    }
}

/// `s` without trailing white space.
pub open spec fn trim_end(s: Seq<char>) -> Seq<char>
    decreases s.len(),
{
    if s.len() > 0 && is_space(s.last()) {
        trim_end(s.drop_last())
    } else {
        s
    }
}

/// The first-listed lecturer of a comma-separated list, trimmed; empty where
/// there is no list.
pub open spec fn lecturer_text(teacher: Option<String>) -> Seq<char> {
    match teacher {
        Some(t) => trim_end(trim_start(before_comma(t@))),
        None => seq![],
    }
}

/// The first-listed lecturer of an event.
pub fn first_lecturer(teacher: &Option<String>) -> (r: String)
    ensures
        r@ == lecturer_text(*teacher),
{
    let t = match teacher {
        Some(t) => chars_of(t.as_str()),
        None => {
            return string_of(&Vec::new());
        },
    };
    let n = t.len();
    let mut cut: usize = 0;
    assert(t@.subrange(0, n as int) =~= t@);
    assert(t@.subrange(0, 0) + t@ =~= t@);
    while cut < n && t[cut] != ','
        invariant
            cut <= n,
            n == t@.len(),
            before_comma(t@) == t@.subrange(0, cut as int) + before_comma(t@.subrange(cut as int, n as int)),
        decreases n - cut,
    {
        let ghost rest = t@.subrange(cut as int, n as int);
        assert(rest.drop_first() =~= t@.subrange(cut + 1, n as int));
        assert(t@.subrange(0, cut + 1) =~= t@.subrange(0, cut as int) + seq![t@[cut as int]]);
        cut += 1;
    }
    assert(before_comma(t@.subrange(cut as int, n as int)) =~= seq![]);
    let mut lo: usize = 0;
    while lo < cut && space(t[lo])
        invariant
            lo <= cut <= n,
            n == t@.len(),
            trim_start(t@.subrange(0, cut as int)) == trim_start(t@.subrange(lo as int, cut as int)),
        decreases cut - lo,
    {
        assert(t@.subrange(lo as int, cut as int).drop_first() =~= t@.subrange(lo + 1, cut as int));
        lo += 1;
    }
    let mut hi: usize = cut;
    while hi > lo && space(t[hi - 1])
        invariant
            lo <= hi <= cut <= n,
            n == t@.len(),
            trim_end(t@.subrange(lo as int, cut as int)) == trim_end(t@.subrange(lo as int, hi as int)),
        decreases hi - lo,
    {
        assert(t@.subrange(lo as int, hi as int).drop_last() =~= t@.subrange(lo as int, hi - 1));
        hi -= 1;
    }
    let mut out: Vec<char> = Vec::new();
    let mut k: usize = lo;
    while k < hi
        invariant
            lo <= k <= hi <= n,
            n == t@.len(),
            out@ == t@.subrange(lo as int, k as int),
        decreases hi - k,
    {
        out.push(t[k]);
        k += 1;
        assert(out@ =~= t@.subrange(lo as int, k as int));
    }
    string_of(&out)
}

/// The time range of a listed event, `HH:MM - HH:MM`.
pub open spec fn range_text(s: Slot, offset: int) -> Seq<char> {
    clock_text(s.start as int, offset) + " - "@ + clock_text(s.end as int, offset)
}

/// One row of the timetable.
pub struct Row {
    pub time: String,
    pub kind: String,
    pub title: String,
    pub location: String,
    pub lecturer: String,
}

/// `r` is the row of event `e`, listed as `s`.
pub open spec fn is_row(r: Row, e: Event, s: Slot, offset: int) -> bool {
    &&& r.time@ == range_text(s, offset)
    &&& r.kind@ == e.event_type@
    &&& r.title@ == e.title@
    &&& r.location@ == e.location@
    &&& r.lecturer@ == lecturer_text(e.teacher_name)
}

/// A day's timetable: its label and one row per event, by start.
pub struct Timetable {
    pub label: String,
    pub rows: Vec<Row>,
}

/// The row of event `e`, listed as `s`.
pub fn make_row(e: &Event, s: &Slot, offset: i64) -> (r: Row)
    requires
        valid_offset(offset as int),
    ensures
        is_row(r, *e, *s, offset as int),
{
    let mut time: Vec<char> = Vec::new();
    push_clock(&mut time, s.start, offset);
    let mut sep = chars_of(" - ");
    time.append(&mut sep);
    push_clock(&mut time, s.end, offset);
    Row {
        time: string_of(&time),
        kind: e.event_type.clone(),
        title: e.title.clone(),
        location: e.location.clone(),
        lecturer: first_lecturer(&e.teacher_name),
    }
}

/// The rows of the events listed in `slots`, in the listing's order.
pub fn make_rows(events: &Vec<Event>, slots: &Vec<Slot>, offset: i64) -> (r: Vec<Row>)
    requires
        valid_offset(offset as int),
        forall|k: int| 0 <= k < slots@.len() ==> slots@[k].index < events@.len(),
    ensures
        r@.len() == slots@.len(),
        forall|k: int|
            0 <= k < slots@.len() ==> is_row(#[trigger] r@[k], events@[slots@[k].index as int], slots@[k], offset as int),
{
    let mut rows: Vec<Row> = Vec::new();
    let mut k: usize = 0;
    while k < slots.len()
        invariant
            k <= slots@.len(),
            valid_offset(offset as int),
            forall|j: int| 0 <= j < slots@.len() ==> slots@[j].index < events@.len(),
            rows@.len() == k,
            forall|j: int|
                0 <= j < k ==> is_row(#[trigger] rows@[j], events@[slots@[j].index as int], slots@[j], offset as int),
        decreases slots@.len() - k,
    {
        let row = make_row(&events[slots[k].index], &slots[k], offset);
        rows.push(row);
        k += 1;
    }
    rows
}

/// The timetable of local day `target`, labelled relative to local day `today`.
pub fn timetable(events: &Vec<Event>, offset: i64, target: i64, today: i64) -> (r: Timetable)
    requires
        valid_offset(offset as int),
    ensures
        r.label@ == label_text(target - today),
        exists|slots: Seq<Slot>|
            is_day_listing(slots, spans_of(events@), offset as int, target as int)
                && r.rows@.len() == slots.len()
                && forall|k: int|
                    0 <= k < slots.len() ==> is_row(#[trigger] r.rows@[k], events@[slots[k].index as int], slots[k], offset as int),
{
    let slots = events_on_day(events, offset, target);
    assert forall|k: int| 0 <= k < slots@.len() implies slots@[k].index < events@.len() by {
        assert(on_day(spans_of(events@)[slots@[k].index as int], offset as int, target as int));
    }
    let rows = make_rows(events, &slots, offset);
    Timetable { label: day_label(target, today), rows }
}

} // verus!
