//! Instants, local calendar days and wall-clock text.
use vstd::prelude::*;

verus! {

/// Seconds in one calendar day.
pub const SECONDS_PER_DAY: i64 = 86400;

/// The instant, in whole seconds since the Unix epoch, that an RFC 3339
/// timestamp denotes, or `None` where the text is not such a timestamp.
pub uninterp spec fn rfc3339_seconds(s: Seq<char>) -> Option<i64>;

/// Relies on chrono's `DateTime::parse_from_rfc3339` and `DateTime::timestamp`:
/// the result is a function of the text alone.
#[verifier::external_body]
pub fn parse_instant(s: &str) -> (r: Option<i64>)
    ensures
        r == rfc3339_seconds(s@),
{
    chrono::DateTime::parse_from_rfc3339(s).ok().map(|d| d.timestamp())
}

/// The local calendar day (days since 1970-01-01) of instant `t` at a
/// local offset of `offset` seconds east of UTC.
pub open spec fn day_of(t: int, offset: int) -> int {
    (t + offset) / 86400
}

/// Seconds since local midnight of instant `t`.
pub open spec fn second_of_day(t: int, offset: int) -> int {
    (t + offset) % 86400
}

/// A local offset that a clock can report: strictly within one day of UTC.
pub open spec fn valid_offset(offset: int) -> bool {
    -86400 < offset < 86400
}

/// Floor division by the day length, on a value that may be negative.
fn floor_day(x: i128) -> (r: i128)
    ensures
        r == x / 86400,
{
    if x >= 0 {
        let q = (x as u128 / 86400u128) as i128;
        q
    } else {
        let y: u128 = (-(x + 1)) as u128;
        let q = (y / 86400u128) as i128;
        proof {
            assert(x / 86400 == -(y / 86400) - 1) by (nonlinear_arith)
                requires y == -(x + 1), y >= 0;
        }
        -q - 1
    }
}

/// The local calendar day of instant `t`.
pub fn local_day(t: i64, offset: i64) -> (r: i64)
    requires
        valid_offset(offset as int),
    ensures
        r == day_of(t as int, offset as int),
{
    let x: i128 = t as i128 + offset as i128;
    let d = floor_day(x);
    proof {
        assert(-(0x8000_0000_0000_0000 + 86400) <= x < 0x8000_0000_0000_0000 + 86400);
        assert(i64::MIN <= x / 86400 <= i64::MAX) by (nonlinear_arith)
            requires -(0x8000_0000_0000_0000 + 86400) <= x < 0x8000_0000_0000_0000 + 86400;
    }
    d as i64
}

/// The decimal digit for `n` (a value below ten).
pub open spec fn digit_char(n: int) -> char {
    if n == 0 { '0' } else if n == 1 { '1' } else if n == 2 { '2' } else if n == 3 { '3' }
    else if n == 4 { '4' } else if n == 5 { '5' } else if n == 6 { '6' } else if n == 7 { '7' }
    else if n == 8 { '8' } else { '9' }
}

fn digit(n: u32) -> (c: char)
    ensures
        c == digit_char(n as int),
{
    if n == 0 { '0' } else if n == 1 { '1' } else if n == 2 { '2' } else if n == 3 { '3' }
    else if n == 4 { '4' } else if n == 5 { '5' } else if n == 6 { '6' } else if n == 7 { '7' }
    else if n == 8 { '8' } else { '9' }
}

/// The local wall-clock time of instant `t` as `HH:MM`.
pub open spec fn clock_text(t: int, offset: int) -> Seq<char> {
    let s = second_of_day(t, offset);
    let h = s / 3600;
    let m = (s % 3600) / 60;
    seq![digit_char(h / 10), digit_char(h % 10), ':', digit_char(m / 10), digit_char(m % 10)]
}

/// Appends the local wall-clock time of instant `t`, as `HH:MM`, to `out`.
pub fn push_clock(out: &mut Vec<char>, t: i64, offset: i64)
    requires
        valid_offset(offset as int),
    ensures
        final(out)@ == old(out)@ + clock_text(t as int, offset as int),
{
    let x: i128 = t as i128 + offset as i128;
    let d = floor_day(x);
    proof {
        assert(0 <= x - d * 86400 < 86400 && x - d * 86400 == x % 86400) by (nonlinear_arith)
            requires d == x / 86400;
    }
    let s: u32 = (x - d * 86400) as u32;
    let h: u32 = s / 3600;
    let m: u32 = (s % 3600) / 60;
    let ghost before = out@;
    out.push(digit(h / 10));
    out.push(digit(h % 10));
    out.push(':');
    out.push(digit(m / 10));
    out.push(digit(m % 10));
    assert(out@ =~= before + clock_text(t as int, offset as int));
}

} // verus!
