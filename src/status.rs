//! The one-line status of today's events at a given instant.
use vstd::prelude::*;
use crate::day::{events_on_day, on_day, is_day_listing, spans_of, Event, Slot};
use crate::text::{chars_of, compress_location, compress_title, short_location, short_title, string_of};
use crate::time::{clock_text, day_of, local_day, push_clock, valid_offset};

verus! {

/// Seconds before an event's end at which the transition to the next event
/// is shown.
pub const BORDER_SECONDS: i64 = 600;

/// Where the day stands at one instant; positions refer to the day's listing.
#[derive(Clone, Copy, Debug, PartialEq, Eq)]
pub enum Status {
    /// Nothing is on and nothing is left today.
    Idle,
    /// Nothing is on; the event at this position starts next.
    Next(usize),
    /// The event at this position is on.
    Current(usize),
    /// The event at the first position ends within the border window and the
    /// one at the second position starts next.
    Border(usize, usize),
}

/// An event that is on at `now`: its half-open interval holds `now`.
pub open spec fn is_current(s: Slot, now: int) -> bool {
    s.start <= now < s.end
}

/// An event that is still to start at `now`.
pub open spec fn is_upcoming(s: Slot, now: int) -> bool {
    s.start > now
}

/// The first position from `k` on whose event is on at `now`.
pub open spec fn first_current_from(slots: Seq<Slot>, now: int, k: int) -> Option<int>
    decreases slots.len() - k,
{
    if k < 0 || k >= slots.len() {
        None
    } else if is_current(slots[k], now) {
        Some(k)
    } else {
        first_current_from(slots, now, k + 1)
    }
}

/// The first position from `k` on whose event is still to start at `now`.
pub open spec fn first_upcoming_from(slots: Seq<Slot>, now: int, k: int) -> Option<int>
    decreases slots.len() - k,
{
    if k < 0 || k >= slots.len() {
        None
    } else if is_upcoming(slots[k], now) {
        Some(k)
    } else {
        first_upcoming_from(slots, now, k + 1)
    }
}

/// Whether `now` lies in the last ten minutes (inclusive) before `end`.
pub open spec fn in_border(end: int, now: int) -> bool {
    now >= end - 600
}

/// The status at `now` of a day whose events are listed by start in `slots`.
pub open spec fn status_of(slots: Seq<Slot>, now: int) -> Status {
    match first_current_from(slots, now, 0) {
        Some(c) => match first_upcoming_from(slots, now, 0) {
            Some(n) => if in_border(slots[c].end as int, now) {
                Status::Border(c as usize, n as usize)
            } else {
                Status::Current(c as usize)
            },
            None => Status::Current(c as usize),
        },
        None => match first_upcoming_from(slots, now, 0) {
            Some(n) => Status::Next(n as usize),
            None => Status::Idle,
        },
    }
}

fn first_current(slots: &Vec<Slot>, now: i64) -> (r: Option<usize>)
    ensures
        r is Some <==> first_current_from(slots@, now as int, 0) is Some,
        r is Some ==> r->0 as int == first_current_from(slots@, now as int, 0)->0,
        r is Some ==> r->0 < slots@.len(),
{
    let mut k: usize = 0;
    while k < slots.len()
        invariant
            k <= slots@.len(),
            first_current_from(slots@, now as int, 0) == first_current_from(slots@, now as int, k as int),
        decreases slots@.len() - k,
    {
        let s = slots[k];
        if s.start <= now && now < s.end {
            return Some(k);
        }
        k += 1;
    }
    None
}

fn first_upcoming(slots: &Vec<Slot>, now: i64) -> (r: Option<usize>)
    ensures
        r is Some <==> first_upcoming_from(slots@, now as int, 0) is Some,
        r is Some ==> r->0 as int == first_upcoming_from(slots@, now as int, 0)->0,
        r is Some ==> r->0 < slots@.len(),
{
    let mut k: usize = 0;
    while k < slots.len()
        invariant
            k <= slots@.len(),
            first_upcoming_from(slots@, now as int, 0) == first_upcoming_from(slots@, now as int, k as int),
        decreases slots@.len() - k,
    {
        if slots[k].start > now {
            return Some(k);
        }
        k += 1;
    }
    None
}

proof fn lemma_first_current_valid(slots: Seq<Slot>, now: int, k: int)
    requires
        k >= 0,
    ensures
        first_current_from(slots, now, k) is Some ==> k <= first_current_from(slots, now, k)->0
            < slots.len() && is_current(slots[first_current_from(slots, now, k)->0], now),
    decreases slots.len() - k,
{
    if k < slots.len() && !is_current(slots[k], now) {
        lemma_first_current_valid(slots, now, k + 1);
    }
}

proof fn lemma_first_upcoming_valid(slots: Seq<Slot>, now: int, k: int)
    requires
        k >= 0,
    ensures
        first_upcoming_from(slots, now, k) is Some ==> k <= first_upcoming_from(slots, now, k)->0
            < slots.len() && is_upcoming(slots[first_upcoming_from(slots, now, k)->0], now),
    decreases slots.len() - k,
{
    if k < slots.len() && !is_upcoming(slots[k], now) {
        lemma_first_upcoming_valid(slots, now, k + 1);
    }
}

/// The positions that `st` names are in `slots`, with events that are on
/// (first position) or still to start (second) at `now`.
pub open spec fn names_valid(slots: Seq<Slot>, now: int, st: Status) -> bool {
    match st {
        Status::Idle => true,
        Status::Next(n) => n < slots.len() && is_upcoming(slots[n as int], now),
        Status::Current(c) => c < slots.len() && is_current(slots[c as int], now),
        Status::Border(c, n) => c < slots.len() && is_current(slots[c as int], now)
            && n < slots.len() && is_upcoming(slots[n as int], now),
    }
}

/// The status at `now` of a day whose events are listed by start in `slots`.
pub fn project_status(slots: &Vec<Slot>, now: i64) -> (r: Status)
    ensures
        r == status_of(slots@, now as int),
        names_valid(slots@, now as int, r),
{
    proof {
        lemma_first_current_valid(slots@, now as int, 0);
        lemma_first_upcoming_valid(slots@, now as int, 0);
    }
    match first_current(slots, now) {
        Some(c) => match first_upcoming(slots, now) {
            Some(n) => {
                if (now as i128) >= (slots[c].end as i128) - (BORDER_SECONDS as i128) {
                    Status::Border(c, n)
                } else {
                    Status::Current(c)
                }
            },
            None => Status::Current(c),
        },
        None => match first_upcoming(slots, now) {
            Some(n) => Status::Next(n),
            None => Status::Idle,
        },
    }
}

/// The status line at `now` of a day whose events, a listing into `events`,
/// are `slots`.
pub open spec fn status_text(events: Seq<Event>, slots: Seq<Slot>, now: int, offset: int) -> Seq<char> {
    match status_of(slots, now) {
        Status::Idle => "TTB: BLK"@,
        Status::Next(n) => {
            let e = events[slots[n as int].index as int];
            "NXT "@ + short_title(e.title@) + " | "@ + short_location(e.location@) + " @ "@
                + clock_text(slots[n as int].start as int, offset)
        },
        Status::Current(c) => {
            let e = events[slots[c as int].index as int];
            "CUR "@ + short_title(e.title@) + " | "@ + short_location(e.location@) + " END "@
                + clock_text(slots[c as int].end as int, offset)
        },
        Status::Border(c, n) => {
            let e = events[slots[n as int].index as int];
            "BRD "@ + clock_text(slots[c as int].end as int, offset) + "\u{2192}"@
                + clock_text(slots[n as int].start as int, offset) + " | "@ + short_title(e.title@)
                + " @ "@ + short_location(e.location@)
        },
    }
}

fn push_str(out: &mut Vec<char>, s: &str)
    ensures
        final(out)@ == old(out)@ + s@,
{
    let mut v = chars_of(s);
    out.append(&mut v);
}

/// The status line for the day listing `slots` of `events` at `now`.
pub fn render_status(events: &Vec<Event>, slots: &Vec<Slot>, now: i64, offset: i64) -> (r: String)
    requires
        valid_offset(offset as int),
        forall|k: int| 0 <= k < slots@.len() ==> slots@[k].index < events@.len(),
    ensures
        r@ == status_text(events@, slots@, now as int, offset as int),
{
    proof {
        lemma_first_current_valid(slots@, now as int, 0);
        lemma_first_upcoming_valid(slots@, now as int, 0);
    }
    let status = project_status(slots, now);
    let mut out: Vec<char> = Vec::new();
    match status {
        Status::Idle => {
            push_str(&mut out, "TTB: BLK");
        },
        Status::Next(n) => {
            let e = &events[slots[n].index];
            push_str(&mut out, "NXT ");
            push_str(&mut out, compress_title(e.title.as_str()).as_str());
            push_str(&mut out, " | ");
            push_str(&mut out, compress_location(e.location.as_str()).as_str());
            push_str(&mut out, " @ ");
            push_clock(&mut out, slots[n].start, offset);
        },
        Status::Current(c) => {
            let e = &events[slots[c].index];
            push_str(&mut out, "CUR ");
            push_str(&mut out, compress_title(e.title.as_str()).as_str());
            push_str(&mut out, " | ");
            push_str(&mut out, compress_location(e.location.as_str()).as_str());
            push_str(&mut out, " END ");
            push_clock(&mut out, slots[c].end, offset);
        },
        Status::Border(c, n) => {
            let e = &events[slots[n].index];
            push_str(&mut out, "BRD ");
            push_clock(&mut out, slots[c].end, offset);
            push_str(&mut out, "\u{2192}");
            push_clock(&mut out, slots[n].start, offset);
            push_str(&mut out, " | ");
            push_str(&mut out, compress_title(e.title.as_str()).as_str());
            push_str(&mut out, " @ ");
            push_str(&mut out, compress_location(e.location.as_str()).as_str());
        },
    }
    string_of(&out)
}

/// The status line at `now` of the events that start on `now`'s local day.
pub fn status_line(events: &Vec<Event>, now: i64, offset: i64) -> (r: String)
    requires
        valid_offset(offset as int),
    ensures
        exists|slots: Seq<Slot>|
            is_day_listing(slots, spans_of(events@), offset as int, day_of(now as int, offset as int))
                && r@ == status_text(events@, slots, now as int, offset as int),
{
    let today = local_day(now, offset);
    let slots = events_on_day(events, offset, today);
    assert forall|k: int| 0 <= k < slots@.len() implies slots@[k].index < events@.len() by {
        assert(on_day(spans_of(events@)[slots@[k].index as int], offset as int, today as int));
    }
    render_status(events, &slots, now, offset)
}

/// A day on which no event starts is idle at every instant: whatever the
/// listing, the status line is the idle marker.
pub proof fn lemma_empty_day_is_idle(events: Seq<Event>, slots: Seq<Slot>, now: int, offset: int)
    requires
        is_day_listing(slots, spans_of(events), offset, day_of(now, offset)),
        forall|i: int| 0 <= i < events.len() ==> !on_day(#[trigger] spans_of(events)[i], offset, day_of(now, offset)),
    ensures
        status_text(events, slots, now, offset) == "TTB: BLK"@,
{
    if slots.len() > 0 {
        assert(on_day(spans_of(events)[slots[0].index as int], offset, day_of(now, offset)));
    }
    assert(first_current_from(slots, now, 0) is None);
    assert(first_upcoming_from(slots, now, 0) is None);
}

} // verus!
