//! The syslog header: `<PRI>Mon dd hh:mm:ss host body`.
use vstd::prelude::*;
use chrono::{Datelike, TimeZone};
use crate::text::{
    all_digits, chars_of, find_char, find_char_exec, find_char_from, find_char_from_exec,
    is_digit_exec, lemma_find_char_from_bounds, parse_int, parse_u32, parse_u8, same_str,
    skip_white, skip_white_exec, slice, text,
};

verus! {

/// A header as written: the date without a year, the sending host, the
/// rest of the line, and the priority where one was given.
#[derive(Debug, Clone, PartialEq)]
pub struct HeaderFields {
    pub month: u32,
    pub day: u32,
    pub hour: u32,
    pub minute: u32,
    pub second: u32,
    pub host: String,
    pub body: String,
    /// Facility times eight plus severity. Absent means the line says
    /// nothing about its urgency — not that it is unimportant.
    pub priority: Option<u8>,
}

pub struct HeaderFieldsView {
    pub month: u32,
    pub day: u32,
    pub hour: u32,
    pub minute: u32,
    pub second: u32,
    pub host: Seq<char>,
    pub body: Seq<char>,
    pub priority: Option<u8>,
}

impl View for HeaderFields {
    type V = HeaderFieldsView;

    open spec fn view(&self) -> HeaderFieldsView {
        HeaderFieldsView {
            month: self.month,
            day: self.day,
            hour: self.hour,
            minute: self.minute,
            second: self.second,
            host: self.host@,
            body: self.body@,
            priority: self.priority,
        }
    }
}

/// A parsed header: its time as seconds since the epoch (UTC).
#[derive(Debug, Clone, PartialEq)]
pub struct SyslogHeader {
    pub timestamp: i64,
    pub host: String,
    pub body: String,
    pub priority: Option<u8>,
}

/// The severity in a priority: 0 = emergency … 7 = debug.
pub open spec fn severity_spec(priority: u8) -> i16 {
    (priority % 8) as i16
}

/// The severity in a priority: 0 = emergency … 7 = debug.
pub fn severity_of(priority: u8) -> (r: i16)
    ensures
        r == severity_spec(priority),
{
    (priority % 8) as i16
}

/// The month number of an English three-letter abbreviation.
pub open spec fn month_of(m: Seq<char>) -> Option<u32> {
    if m == "Jan"@ {
        Some(1)
    } else if m == "Feb"@ {
        Some(2)
    } else if m == "Mar"@ {
        Some(3)
    } else if m == "Apr"@ {
        Some(4)
    } else if m == "May"@ {
        Some(5)
    } else if m == "Jun"@ {
        Some(6)
    } else if m == "Jul"@ {
        Some(7)
    } else if m == "Aug"@ {
        Some(8)
    } else if m == "Sep"@ {
        Some(9)
    } else if m == "Oct"@ {
        Some(10)
    } else if m == "Nov"@ {
        Some(11)
    } else if m == "Dec"@ {
        Some(12)
    } else {
        None
    }
}

/// The month number of an English three-letter abbreviation.
pub fn month_num(m: &[char]) -> (r: Option<u32>)
    ensures
        r == month_of(m@),
{
    if same_str(m, "Jan") {
        Some(1)
    } else if same_str(m, "Feb") {
        Some(2)
    } else if same_str(m, "Mar") {
        Some(3)
    } else if same_str(m, "Apr") {
        Some(4)
    } else if same_str(m, "May") {
        Some(5)
    } else if same_str(m, "Jun") {
        Some(6)
    } else if same_str(m, "Jul") {
        Some(7)
    } else if same_str(m, "Aug") {
        Some(8)
    } else if same_str(m, "Sep") {
        Some(9)
    } else if same_str(m, "Oct") {
        Some(10)
    } else if same_str(m, "Nov") {
        Some(11)
    } else if same_str(m, "Dec") {
        Some(12)
    } else {
        None
    }
}

pub open spec fn u32_of(s: Seq<char>) -> Option<u32> {
    match parse_int(s, false, 0, u32::MAX as int) {
        Some(v) => Some(v as u32),
        None => None,
    }
}

pub open spec fn u8_of(s: Seq<char>) -> Option<u8> {
    match parse_int(s, false, 0, 255) {
        Some(v) => Some(v as u8),
        None => None,
    }
}

/// The priority prefix `<NN>`: where the rest of the line starts, and the
/// number. No `<` at the start: the rest is the whole line. A `<` without
/// `>`, or anything but digits between them, is no header.
pub open spec fn priority_part(s: Seq<char>) -> Option<(int, Option<u8>)> {
    if s.len() > 0 && s[0] == '<' {
        match find_char_from(s, '>', 1) {
            None => None,
            Some(end) => if all_digits(s.subrange(1, end)) {
                Some((end + 1, u8_of(s.subrange(1, end))))
            } else {
                None
            },
        }
    } else {
        Some((0, None))
    }
}

/// `h:m:s`, each a number; what follows the second `:` is the seconds.
pub open spec fn clock_of(t: Seq<char>) -> Option<(u32, u32, u32)> {
    match find_char(t, ':') {
        None => None,
        Some(c1) => match find_char_from(t, ':', c1 + 1) {
            None => None,
            Some(c2) => match (
                u32_of(t.subrange(0, c1)),
                u32_of(t.subrange(c1 + 1, c2)),
                u32_of(t.subrange(c2 + 1, t.len() as int)),
            ) {
                (Some(h), Some(m), Some(sec)) => Some((h, m, sec)),
                _ => None,
            },
        },
    }
}

/// The header of a syslog line, as written: month name and the rest
/// separated by a space; then, after any further white space, the day up
/// to a space; the time up to a space; the host up to a space; and the body,
/// white space trimmed from its start. An empty host or body is no header.
pub open spec fn header_view(s: Seq<char>) -> Option<HeaderFieldsView> {
    match priority_part(s) {
        None => None,
        Some((r0, priority)) => match find_char_from(s, ' ', r0) {
            None => None,
            Some(sp1) => match month_of(s.subrange(r0, sp1)) {
                None => None,
                Some(month) => {
                    let a = skip_white(s, sp1 + 1);
                    match find_char_from(s, ' ', a) {
                        None => None,
                        Some(sp2) => match u32_of(s.subrange(a, sp2)) {
                            None => None,
                            Some(day) => match find_char_from(s, ' ', sp2 + 1) {
                                None => None,
                                Some(sp3) => match clock_of(s.subrange(sp2 + 1, sp3)) {
                                    None => None,
                                    Some((hour, minute, second)) => match find_char_from(
                                        s,
                                        ' ',
                                        sp3 + 1,
                                    ) {
                                        None => None,
                                        Some(sp4) => {
                                            let host = s.subrange(sp3 + 1, sp4);
                                            let b = skip_white(s, sp4 + 1);
                                            let body = s.subrange(b, s.len() as int);
                                            if host.len() == 0 || body.len() == 0 {
                                                None
                                            } else {
                                                Some(
                                                    HeaderFieldsView {
                                                        month,
                                                        day,
                                                        hour,
                                                        minute,
                                                        second,
                                                        host,
                                                        body,
                                                        priority,
                                                    },
                                                )
                                            }
                                        },
                                    },
                                },
                            },
                        },
                    }
                },
            },
        },
    }
}

#[verifier::loop_isolation(false)]
fn priority_part_exec(s: &[char]) -> (r: Option<(usize, Option<u8>)>)
    ensures
        match r {
            Some((a, p)) => priority_part(s@) == Some((a as int, p)) && a <= s@.len(),
            None => priority_part(s@) is None,
        },
{
    if s.len() > 0 && s[0] == '<' {
        proof {
            lemma_find_char_from_bounds(s@, '>', 1);
        }
        match find_char_from_exec(s, '>', 1) {
            None => None,
            Some(end) => {
                let digits = slice(s, 1, end);
                let mut k: usize = 0;
                while k < digits.len()
                    invariant
                        0 <= k <= digits@.len(),
                        forall|j: int| 0 <= j < k ==> #[trigger] crate::text::is_digit(digits@[j]),
                    decreases digits.len() - k,
                {
                    if !is_digit_exec(digits[k]) {
                        assert(!crate::text::is_digit(digits@[k as int]));
                        assert(!all_digits(digits@));
                        return None;
                    }
                    k = k + 1;
                }
                let prio = parse_u8(digits.as_slice());
                let p: Option<u8> = match prio {
                    Some(v) => Some(v),
                    None => None,
                };
                assert(end < s.len());
                Some((end + 1, p))
            },
        }
    } else {
        Some((0, None))
    }
}

fn u32_of_exec(s: &[char]) -> (r: Option<u32>)
    ensures
        r == u32_of(s@),
{
    parse_u32(s)
}

fn clock_exec(t: &[char]) -> (r: Option<(u32, u32, u32)>)
    ensures
        r == clock_of(t@),
{
    proof {
        lemma_find_char_from_bounds(t@, ':', 0);
    }
    let c1 = match find_char_exec(t, ':') {
        None => return None,
        Some(c) => c,
    };
    assert(c1 < t.len());
    proof {
        lemma_find_char_from_bounds(t@, ':', c1 + 1);
    }
    let c2 = match find_char_from_exec(t, ':', c1 + 1) {
        None => return None,
        Some(c) => c,
    };
    assert(c2 < t.len());
    let h = u32_of_exec(slice(t, 0, c1).as_slice());
    let m = u32_of_exec(slice(t, c1 + 1, c2).as_slice());
    let sec = u32_of_exec(slice(t, c2 + 1, t.len()).as_slice());
    match (h, m, sec) {
        (Some(h), Some(m), Some(sec)) => Some((h, m, sec)),
        _ => None,
    }
}

/// The header of a syslog line, as written.
pub fn header_fields_chars(s: &[char]) -> (r: Option<HeaderFields>)
    ensures
        match r {
            Some(h) => header_view(s@) == Some(h@),
            None => header_view(s@) is None,
        },
{
    let (r0, priority) = match priority_part_exec(s) {
        None => return None,
        Some(t) => t,
    };
    proof {
        lemma_find_char_from_bounds(s@, ' ', r0 as int);
    }
    let sp1 = match find_char_from_exec(s, ' ', r0) {
        None => return None,
        Some(p) => p,
    };
    assert(sp1 < s.len());
    let month = match month_num(slice(s, r0, sp1).as_slice()) {
        None => return None,
        Some(m) => m,
    };
    let a = skip_white_exec(s, sp1 + 1);
    proof {
        lemma_find_char_from_bounds(s@, ' ', a as int);
    }
    let sp2 = match find_char_from_exec(s, ' ', a) {
        None => return None,
        Some(p) => p,
    };
    assert(sp2 < s.len());
    let day = match u32_of_exec(slice(s, a, sp2).as_slice()) {
        None => return None,
        Some(d) => d,
    };
    proof {
        lemma_find_char_from_bounds(s@, ' ', sp2 + 1);
    }
    let sp3 = match find_char_from_exec(s, ' ', sp2 + 1) {
        None => return None,
        Some(p) => p,
    };
    assert(sp3 < s.len());
    let (hour, minute, second) = match clock_exec(slice(s, sp2 + 1, sp3).as_slice()) {
        None => return None,
        Some(c) => c,
    };
    proof {
        lemma_find_char_from_bounds(s@, ' ', sp3 + 1);
    }
    let sp4 = match find_char_from_exec(s, ' ', sp3 + 1) {
        None => return None,
        Some(p) => p,
    };
    assert(sp4 < s.len());
    let b = skip_white_exec(s, sp4 + 1);
    if sp4 == sp3 + 1 || b == s.len() {
        return None;
    }
    Some(
        HeaderFields {
            month,
            day,
            hour,
            minute,
            second,
            host: text(s, sp3 + 1, sp4),
            body: text(s, b, s.len()),
            priority,
        },
    )
}

/// The header of a syslog line, as written.
pub fn header_fields(line: &str) -> (r: Option<HeaderFields>)
    ensures
        match r {
            Some(h) => header_view(line@) == Some(h@),
            None => header_view(line@) is None,
        },
{
    let s = chars_of(line);
    header_fields_chars(s.as_slice())
}

/// The year a line belongs to. Syslog leaves it out; it is the year of the
/// receiving moment, unless the line's month lies more than six months
/// ahead — then it was written in December and read in January, and belongs
/// to the year before.
pub open spec fn year_for(month: u32, now_year: i32, now_month: u32) -> i32 {
    if month as int - now_month as int > 6 {
        (now_year - 1) as i32
    } else {
        now_year
    }
}

/// The year a line belongs to.
pub fn line_year(month: u32, now_year: i32, now_month: u32) -> (r: i32)
    requires
        now_year > i32::MIN,
        1 <= month <= 12,
        1 <= now_month <= 12,
    ensures
        r == year_for(month, now_year, now_month),
{
    if month as i32 - now_month as i32 > 6 {
        now_year - 1
    } else {
        now_year
    }
}

/// Days from 1970-01-01 to the given date of the proleptic Gregorian
/// calendar (negative before it); month 1..=12, day counted from 1.
pub open spec fn days_from_civil(y: int, m: int, d: int) -> int {
    let yy = if m <= 2 {
        y - 1
    } else {
        y
    };
    let era = yy / 400;
    let yoe = yy - era * 400;
    let mp = if m > 2 {
        m - 3
    } else {
        m + 9
    };
    let doy = (153 * mp + 2) / 5 + d - 1;
    let doe = yoe * 365 + yoe / 4 - yoe / 100 + doy;
    era * 146097 + doe - 719468
}

/// Seconds since the epoch of a wall-clock reading taken as UTC.
pub open spec fn civil_seconds(y: int, m: int, d: int, hour: int, minute: int, second: int) -> int {
    days_from_civil(y, m, d) * 86400 + hour * 3600 + minute * 60 + second
}

/// The first second of the month after `(y, m)`, read as UTC.
pub open spec fn month_end_seconds(y: int, m: int) -> int {
    if m >= 12 {
        civil_seconds(y + 1, 1, 1, 0, 0, 0)
    } else {
        civil_seconds(y, m + 1, 1, 0, 0, 0)
    }
}

/// `now` lies in month `m` of year `y` of some time zone: a zone's offset
/// from UTC is less than a day either way, so the local month is the UTC
/// month of an instant at most a day off.
pub open spec fn local_month_of(now: int, y: int, m: int) -> bool {
    civil_seconds(y, m, 1, 0, 0, 0) - 86400 < now < month_end_seconds(y, m) + 86400
}

/// `DateTime::<Utc>::from_timestamp(now, 0)` turned to the local time zone
/// (chrono): its year and month. Which month depends on the machine's time
/// zone; chrono keeps every offset under a day (`FixedOffset::east_opt`),
/// so the local reading is that of an instant less than a day from `now`.
#[verifier::external_body]
fn local_year_month(now: i64) -> (r: Option<(i32, u32)>)
    ensures
        r matches Some((y, m)) ==> y > i32::MIN && 1 <= m <= 12 && local_month_of(now as int, y as int, m as int),
{
    match chrono::DateTime::from_timestamp(now, 0) {
        Some(t) => {
            let l = t.with_timezone(&chrono::Local);
            Some((l.year(), l.month()))
        },
        None => None,
    }
}

/// `Local.with_ymd_and_hms` (chrono) as seconds since the epoch: the first
/// of two readings where a time is ambiguous, nothing where it does not
/// exist (a daylight-saving gap, or no such date). The instant is the wall
/// clock reading minus the zone's offset (`from_local_datetime`), and chrono
/// keeps every offset under a day either way; which offset applies depends
/// on the machine's time zone and is not stated.
#[verifier::external_body]
fn local_to_utc(year: i32, month: u32, day: u32, hour: u32, minute: u32, second: u32) -> (r:
    Option<i64>)
    ensures
        r matches Some(t) ==> civil_seconds(year as int, month as int, day as int, hour as int, minute as int, second as int)
            - 86400 < t < civil_seconds(year as int, month as int, day as int, hour as int, minute as int, second as int) + 86400,
{
    match chrono::Local.with_ymd_and_hms(year, month, day, hour, minute, second) {
        chrono::LocalResult::Single(t) => Some(t.timestamp()),
        chrono::LocalResult::Ambiguous(t, _) => Some(t.timestamp()),
        chrono::LocalResult::None => None,
    }
}

/// What a header's timestamp is: the local reading of the header's month,
/// day, hour, minute and second in the year the rollover rule gives for a
/// local month `(ny, nm)` that holds `now`, taken at an offset under a day.
pub open spec fn header_instant(f: HeaderFieldsView, now: i64, ny: i32, nm: u32, t: i64) -> bool {
    &&& local_month_of(now as int, ny as int, nm as int)
    &&& {
        let c = civil_seconds(
            year_for(f.month, ny, nm) as int,
            f.month as int,
            f.day as int,
            f.hour as int,
            f.minute as int,
            f.second as int,
        );
        c - 86400 < t < c + 86400
    }
}

/// Parses the header of a syslog line received at `now` (seconds since the
/// epoch). The date is read in the machine's local time zone, which must be
/// the sender's.
pub fn parse_header(line: &str, now: i64) -> (r: Option<SyslogHeader>)
    ensures
        r is Some ==> header_view(line@) is Some,
        r matches Some(h) ==> {
            let f = header_view(line@).unwrap();
            &&& h.host@ == f.host && h.body@ == f.body && h.priority == f.priority
            &&& exists|ny: i32, nm: u32| #[trigger] header_instant(f, now, ny, nm, h.timestamp)
        },
{
    let f = match header_fields(line) {
        None => return None,
        Some(f) => f,
    };
    let (now_year, now_month) = match local_year_month(now) {
        None => return None,
        Some(t) => t,
    };
    assert(1 <= f.month <= 12);
    let year = line_year(f.month, now_year, now_month);
    let ts = match local_to_utc(year, f.month, f.day, f.hour, f.minute, f.second) {
        None => return None,
        Some(t) => t,
    };
    assert(header_view(line@).unwrap() == f@);
    assert(header_instant(f@, now, now_year, now_month, ts));
    let r = SyslogHeader { timestamp: ts, host: f.host, body: f.body, priority: f.priority };
    assert(header_instant(header_view(line@).unwrap(), now, now_year, now_month, r.timestamp));
    Some(r)
}

/// The day of month moves a header's instant by whole days: two readings
/// that differ only in the day lie exactly that many days apart, so each
/// day of the header gives its own window of instants.
pub proof fn lemma_days_apart(y: int, m: int, d1: int, d2: int, hour: int, minute: int, second: int)
    ensures
        civil_seconds(y, m, d1, hour, minute, second) - civil_seconds(y, m, d2, hour, minute, second)
            == (d1 - d2) * 86400,
{
    assert(days_from_civil(y, m, d1) - days_from_civil(y, m, d2) == d1 - d2);
    assert((days_from_civil(y, m, d1) - days_from_civil(y, m, d2)) * 86400 == days_from_civil(y, m, d1)
        * 86400 - days_from_civil(y, m, d2) * 86400) by (nonlinear_arith);
}

/// The calendar starts at the epoch: 1970-01-01 is day 0, and a day later
/// is day 1.
pub proof fn lemma_epoch_day()
    ensures
        days_from_civil(1970, 1, 1) == 0,
        days_from_civil(1970, 1, 2) == 1,
        days_from_civil(2026, 2, 8) - days_from_civil(2026, 2, 1) == 7,
{
}

} // verus!
