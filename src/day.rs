//! Events, their parsed instants, and the choice of one day's events.
use vstd::prelude::*;
use crate::time::{day_of, local_day, parse_instant, rfc3339_seconds, valid_offset};

verus! {

/// One calendar entry, as the timetable service reports it.
pub struct Event {
    pub title: String,
    pub event_type: String,
    /// RFC 3339 start timestamp.
    pub start: String,
    /// RFC 3339 end timestamp.
    pub end: String,
    pub location: String,
    /// Lecturers, separated by commas; may be absent or empty.
    pub teacher_name: Option<String>,
}

/// The instants of an event, where its timestamps parse.
#[derive(Clone, Copy, Debug, PartialEq, Eq)]
pub struct Span {
    pub start: Option<i64>,
    pub end: Option<i64>,
}

/// The instants that an event's timestamps denote.
pub open spec fn span_of(e: Event) -> Span {
    Span { start: rfc3339_seconds(e.start@), end: rfc3339_seconds(e.end@) }
}

/// The instants of each event, in order.
pub open spec fn spans_of(events: Seq<Event>) -> Seq<Span> {
    events.map_values(|e: Event| span_of(e))
}

/// One event of a day: its position in the full list and its instants.
#[derive(Clone, Copy, Debug, PartialEq, Eq)]
pub struct Slot {
    pub index: usize,
    pub start: i64,
    pub end: i64,
}

/// Whether an event with instants `sp` belongs to local day `day`: both its
/// timestamps parse and it starts on that day. An event with a timestamp
/// that does not parse belongs to no day.
pub open spec fn on_day(sp: Span, offset: int, day: int) -> bool {
    sp.start is Some && sp.end is Some && day_of(sp.start->0 as int, offset) == day
}

/// `r` lists, once each and by start, exactly the events of `spans` that
/// belong to local day `day`.
pub open spec fn is_day_listing(r: Seq<Slot>, spans: Seq<Span>, offset: int, day: int) -> bool {
    &&& forall|k: int|
        0 <= k < r.len() ==> {
            &&& (#[trigger] r[k]).index < spans.len()
            &&& on_day(spans[r[k].index as int], offset, day)
            &&& spans[r[k].index as int].start == Some(r[k].start)
            &&& spans[r[k].index as int].end == Some(r[k].end)
        }
    &&& forall|i: int|
        0 <= i < spans.len() && on_day(#[trigger] spans[i], offset, day) ==> exists|k: int|
            0 <= k < r.len() && r[k].index == i
    &&& forall|a: int, b: int| 0 <= a < b < r.len() ==> r[a].index != r[b].index
    &&& forall|a: int, b: int| 0 <= a < b < r.len() ==> r[a].start <= r[b].start
}

proof fn lemma_listing_skip(r: Seq<Slot>, pre: Seq<Span>, next: Seq<Span>, offset: int, day: int)
    requires
        is_day_listing(r, pre, offset, day),
        next.len() == pre.len() + 1,
        forall|j: int| 0 <= j < pre.len() ==> next[j] == pre[j],
        !on_day(next[pre.len() as int], offset, day),
    ensures
        is_day_listing(r, next, offset, day),
{
    assert forall|k: int| 0 <= k < r.len() implies {
        &&& r[k].index < next.len()
        &&& on_day(#[trigger] next[r[k].index as int], offset, day)
        &&& next[r[k].index as int].start == Some(r[k].start)
        &&& next[r[k].index as int].end == Some(r[k].end)
    } by {
        assert(on_day(pre[r[k].index as int], offset, day));
    }
    assert forall|j: int| 0 <= j < next.len() && on_day(#[trigger] next[j], offset, day)
        implies exists|k: int| 0 <= k < r.len() && r[k].index == j by {
        assert(on_day(pre[j], offset, day));
    }
}

/// Parses the timestamps of one event.
pub fn parse_span(e: &Event) -> (r: Span)
    ensures
        r == span_of(*e),
{
    Span { start: parse_instant(e.start.as_str()), end: parse_instant(e.end.as_str()) }
}

/// Parses the timestamps of every event.
pub fn parse_spans(events: &Vec<Event>) -> (r: Vec<Span>)
    ensures
        r@ == spans_of(events@),
{
    let mut out: Vec<Span> = Vec::new();
    let mut i: usize = 0;
    while i < events.len()
        invariant
            i <= events@.len(),
            out@ == spans_of(events@.subrange(0, i as int)),
        decreases events@.len() - i,
    {
        out.push(parse_span(&events[i]));
        i += 1;
        assert(out@ =~= spans_of(events@.subrange(0, i as int)));
    }
    assert(events@.subrange(0, i as int) =~= events@);
    out
}

/// The events of `spans` that start on local day `day`, ordered by start.
/// Events whose start or end does not parse are left out.
pub fn select_day(spans: &Vec<Span>, offset: i64, day: i64) -> (r: Vec<Slot>)
    requires
        valid_offset(offset as int),
    ensures
        is_day_listing(r@, spans@, offset as int, day as int),
{
    let mut r: Vec<Slot> = Vec::new();
    let mut i: usize = 0;
    while i < spans.len()
        invariant
            i <= spans@.len(),
            valid_offset(offset as int),
            is_day_listing(r@, spans@.subrange(0, i as int), offset as int, day as int),
        decreases spans@.len() - i,
    {
        let ghost pre = spans@.subrange(0, i as int);
        let ghost next = spans@.subrange(0, i + 1);
        assert forall|j: int| 0 <= j < i implies next[j] == pre[j] by {}
        let sp = spans[i];
        match (sp.start, sp.end) {
            (Some(t), Some(end)) => {
                if local_day(t, offset) == day {
                    let ghost old_r = r@;
                    let mut p: usize = 0;
                    while p < r.len() && r[p].start <= t
                        invariant
                            p <= r@.len(),
                            r@ == old_r,
                            is_day_listing(old_r, pre, offset as int, day as int),
                            forall|k: int| 0 <= k < p ==> r@[k].start <= t,
                        decreases r@.len() - p,
                    {
                        p += 1;
                    }
                    assert(p == old_r.len() || old_r[p as int].start > t);
                    assert(next[i as int] == sp);
                    let slot = Slot { index: i, start: t, end };
                    r.insert(p, slot);
                    assert(r@ == old_r.insert(p as int, slot));
                    assert forall|k: int| 0 <= k < r@.len() implies {
                        &&& r@[k].index < next.len()
                        &&& on_day(#[trigger] next[r@[k].index as int], offset as int, day as int)
                        &&& next[r@[k].index as int].start == Some(r@[k].start)
                        &&& next[r@[k].index as int].end == Some(r@[k].end)
                    } by {
                        if k < p {
                            assert(r@[k] == old_r[k]);
                        } else if k > p {
                            assert(r@[k] == old_r[k - 1]);
                        }
                    }
                    assert forall|j: int| 0 <= j < next.len() && on_day(#[trigger] next[j], offset as int, day as int)
                        implies exists|k: int| 0 <= k < r@.len() && r@[k].index == j by {
                        if j == i {
                            assert(r@[p as int].index == j);
                        } else {
                            assert(on_day(pre[j], offset as int, day as int));
                            let k = choose|k: int| 0 <= k < old_r.len() && old_r[k].index == j;
                            if k < p {
                                assert(r@[k] == old_r[k]);
                            } else {
                                assert(r@[k + 1] == old_r[k]);
                            }
                        }
                    }
                    assert forall|a: int, b: int| 0 <= a < b < r@.len() implies r@[a].index != r@[b].index
                        && r@[a].start <= r@[b].start by {
                        if b < p {
                            assert(r@[a] == old_r[a] && r@[b] == old_r[b]);
                        } else if b == p {
                            assert(r@[a] == old_r[a]);
                        } else if a < p {
                            assert(r@[a] == old_r[a] && r@[b] == old_r[b - 1]);
                            if p < old_r.len() {
                                assert(old_r[p as int].start <= old_r[b - 1].start);
                            }
                        } else if a == p {
                            assert(r@[b] == old_r[b - 1]);
                            assert(old_r[p as int].start <= old_r[b - 1].start);
                        } else {
                            assert(r@[a] == old_r[a - 1] && r@[b] == old_r[b - 1]);
                        }
                    }
                } else {
                    proof {
                        lemma_listing_skip(r@, pre, next, offset as int, day as int);
                    }
                }
            },
            _ => {
                proof {
                    lemma_listing_skip(r@, pre, next, offset as int, day as int);
                }
            },
        }
        i += 1;
    }
    assert(spans@.subrange(0, i as int) =~= spans@);
    r
}

/// The events of `events` that start on local day `day`, ordered by start.
/// Events whose start or end does not parse are left out.
pub fn events_on_day(events: &Vec<Event>, offset: i64, day: i64) -> (r: Vec<Slot>)
    requires
        valid_offset(offset as int),
    ensures
        is_day_listing(r@, spans_of(events@), offset as int, day as int),
{
    let spans = parse_spans(events);
    select_day(&spans, offset, day)
}

} // verus!
