//! Dates of e-mails: finding a date in a header, reading it, and choosing
//! the date an e-mail was sent.
//!
//! Dates are read by the `chrono` crate; the parser works on the plain
//! values of [`Timestamp`].
use vstd::prelude::*;
use chrono::{
    DateTime, Datelike, FixedOffset, NaiveDate, NaiveDateTime, NaiveTime, TimeZone, Timelike, Utc,
};
use crate::parser::entities::Headers;
use crate::parser::matching::{regex_find, spec_regex_find};
use crate::text::{
    chars_of, find_char, first_index, opt_view, push_char, string_of_range, trim,
    trim_text,
};

verus! {

/// The date formats looked for in a header: RFC 2822, RFC 1123, RFC 1036
/// and `ctime`, in that order of preference at a given position.
pub const DATE_PATTERN: &'static str = r"(?:(?:(Sun|Mon|Tue|Wed|Thu|Fri|Sat),\s+)?(0[1-9]|[1-2]?[0-9]|3[01])\s+(Jan|Feb|Mar|Apr|May|Jun|Jul|Aug|Sep|Oct|Nov|Dec)\s+(19[0-9]{2}|[2-9][0-9]{3})\s+(2[0-3]|[0-1][0-9]):([0-5][0-9])(?::(60|[0-5][0-9]))?\s+([-\+][0-9]{2}[0-5][0-9]|(?:UT|GMT|(?:E|C|M|P)(?:ST|DT)|[A-IK-Z])))|(?:\w{3}, \d{2} \w{3} \d{4} \d{2}:\d{2}:\d{2} \w{3})|(?:\w+?, \d{2}-\w{3}-\d{2} \d{2}:\d{2}:\d{2} \w{3})|(?:\w{3} \w{3} \d+? \d{2}:\d{2}:\d{2} \d{4})";

/// The format tried last: a day name, day, month, year and time of day.
pub const DAY_TIME_FORMAT: &'static str = "%a, %d %b %Y %H:%M:%S";

/// The last second that `chrono` can represent, the end of year 262142
/// (UTC), in seconds since 1970.
pub const MAX_UTC_SECONDS: i64 = 8210266876799;

/// Three days, in seconds: how far in the future a date may lie.
pub const FUTURE_TOLERANCE_SECONDS: i64 = 259200;

/// A date and time as `chrono` reads it.
#[derive(Debug, Clone)]
pub struct Timestamp {
    /// Seconds since 1970-01-01T00:00:00Z, leap seconds not counted.
    pub seconds: i64,
    /// Fraction of the second in nanoseconds; from one second up within a
    /// leap second.
    pub nanos: u32,
    /// Offset from UTC, in seconds east.
    pub offset: i32,
    /// Local calendar year.
    pub year: i32,
    /// Local month, from 1.
    pub month: u32,
    /// Local day of the month, from 1.
    pub day: u32,
    /// Local time of day, in seconds since midnight.
    pub time_seconds: u32,
    /// The RFC 3339 text of the date.
    pub text: String,
}

/// The values of a [`Timestamp`].
pub ghost struct DateView {
    pub seconds: int,
    pub nanos: int,
    pub offset: int,
    pub year: int,
    pub month: int,
    pub day: int,
    pub time_seconds: int,
    pub text: Seq<char>,
}

impl View for Timestamp {
    type V = DateView;

    open spec fn view(&self) -> DateView {
        DateView {
            seconds: self.seconds as int,
            nanos: self.nanos as int,
            offset: self.offset as int,
            year: self.year as int,
            month: self.month as int,
            day: self.day as int,
            time_seconds: self.time_seconds as int,
            text: self.text@,
        }
    }
}

impl Timestamp {
    /// A copy of the timestamp.
    pub fn duplicate(&self) -> (r: Timestamp)
        ensures
            r@ == self@,
    {
        Timestamp {
            seconds: self.seconds,
            nanos: self.nanos,
            offset: self.offset,
            year: self.year,
            month: self.month,
            day: self.day,
            time_seconds: self.time_seconds,
            text: self.text.clone(),
        }
    }
}

/// The values of an optional timestamp.
pub open spec fn opt_date_view(o: Option<Timestamp>) -> Option<DateView> {
    match o {
        Some(t) => Some(t@),
        None => None,
    }
}

/// The values of a list of timestamps.
pub open spec fn dates_view(v: Seq<Timestamp>) -> Seq<DateView> {
    v.map_values(|t: Timestamp| t@)
}

/// What [`parse_rfc2822`] returns.
pub uninterp spec fn spec_rfc2822(text: Seq<char>) -> Option<DateView>;

/// What [`parse_rfc3339`] returns.
pub uninterp spec fn spec_rfc3339(text: Seq<char>) -> Option<DateView>;

/// What [`parse_day_time`] returns.
pub uninterp spec fn spec_day_time(text: Seq<char>) -> Option<DateView>;

/// What [`rfc3339_micros`] returns.
pub uninterp spec fn spec_rfc3339_micros(text: Seq<char>) -> Option<int>;

/// What [`with_year`] returns.
pub uninterp spec fn spec_with_year(date: DateView, year: int) -> Option<DateView>;

/// Whether the offset of a date from UTC is a whole number of minutes, less
/// than a day either way.
pub open spec fn whole_minute_offset(d: DateView) -> bool {
    d.offset % 60 == 0 && -86400 < d.offset < 86400
}

/// Whether the RFC 3339 text of a date reads back as a date wherever its
/// local year has four digits (`to_rfc3339` writes other years with a sign,
/// which `parse_from_rfc3339` refuses), and its offset is whole minutes.
pub open spec fn rfc3339_readable(d: DateView) -> bool {
    &&& whole_minute_offset(d)
    &&& (0 <= d.year <= 9999 ==> spec_rfc3339(d.text) is Some)
}

/// `DateTime::parse_from_rfc2822`: the date of an RFC 2822 text, if it is
/// one. Its offset is whole minutes (named zones or `+HHMM`, less than a
/// day), so its `to_rfc3339` text reads back with `parse_from_rfc3339` for
/// a four-digit year.
#[verifier::external_body]
fn parse_rfc2822(text: &str) -> (r: Option<Timestamp>)
    ensures
        opt_date_view(r) == spec_rfc2822(text@),
        r matches Some(t) ==> rfc3339_readable(t@),
{
    let d = DateTime::parse_from_rfc2822(text).ok()?;
    Some(Timestamp { seconds: d.timestamp(), nanos: d.timestamp_subsec_nanos(), offset: d.offset().local_minus_utc(), year: d.year(), month: d.month(), day: d.day(), time_seconds: d.num_seconds_from_midnight(), text: d.to_rfc3339() })
}

/// `DateTime::parse_from_rfc3339`: the date of an RFC 3339 text, if it is
/// one. Its offset is whole minutes up to `23:59`, so its `to_rfc3339`
/// text reads back for a four-digit year.
#[verifier::external_body]
fn parse_rfc3339(text: &str) -> (r: Option<Timestamp>)
    ensures
        opt_date_view(r) == spec_rfc3339(text@),
        r matches Some(t) ==> rfc3339_readable(t@),
{
    let d = DateTime::parse_from_rfc3339(text).ok()?;
    Some(Timestamp { seconds: d.timestamp(), nanos: d.timestamp_subsec_nanos(), offset: d.offset().local_minus_utc(), year: d.year(), month: d.month(), day: d.day(), time_seconds: d.num_seconds_from_midnight(), text: d.to_rfc3339() })
}

/// `NaiveDateTime::parse_from_str` with [`DAY_TIME_FORMAT`]: the date and
/// time of the text, taken as UTC; its `to_rfc3339` text (offset `+00:00`)
/// reads back for a four-digit year.
#[verifier::external_body]
fn parse_day_time(text: &str) -> (r: Option<Timestamp>)
    ensures
        opt_date_view(r) == spec_day_time(text@),
        r matches Some(t) ==> rfc3339_readable(t@),
{
    let n = NaiveDateTime::parse_from_str(text, DAY_TIME_FORMAT).ok()?;
    let d = Utc.from_utc_datetime(&n).with_timezone(&FixedOffset::east_opt(0)?);
    Some(Timestamp { seconds: d.timestamp(), nanos: d.timestamp_subsec_nanos(), offset: d.offset().local_minus_utc(), year: d.year(), month: d.month(), day: d.day(), time_seconds: d.num_seconds_from_midnight(), text: d.to_rfc3339() })
}

/// `DateTime::parse_from_rfc3339` then `timestamp_micros`: the instant of
/// an RFC 3339 text in microseconds since 1970, if the text is one.
#[verifier::external_body]
pub(crate) fn rfc3339_micros(text: &str) -> (r: Option<i64>)
    ensures
        match r {
            Some(m) => spec_rfc3339_micros(text@) == Some(m as int),
            None => spec_rfc3339_micros(text@) == None::<int>,
        },
{
    Some(DateTime::parse_from_rfc3339(text).ok()?.timestamp_micros())
}

/// `NaiveDate::from_ymd_opt`: the local date and time of `date` moved to
/// `year` and read as UTC, then shown with the offset of `date`; `None`
/// where that day does not exist in `year`. The offset is kept, so where
/// it is whole minutes less than a day the `to_rfc3339` text of the result
/// reads back for a four-digit year.
#[verifier::external_body]
fn with_year(date: &Timestamp, year: i32) -> (r: Option<Timestamp>)
    ensures
        opt_date_view(r) == spec_with_year(date@, year as int),
        whole_minute_offset(date@) && r is Some ==> rfc3339_readable(r->0@),
{
    let day = NaiveDate::from_ymd_opt(year, date.month, date.day)?;
    let time = NaiveTime::from_num_seconds_from_midnight_opt(date.time_seconds, date.nanos)?;
    let d = Utc.from_utc_datetime(&day.and_time(time)).with_timezone(&FixedOffset::east_opt(date.offset)?);
    Some(Timestamp { seconds: d.timestamp(), nanos: d.timestamp_subsec_nanos(), offset: d.offset().local_minus_utc(), year: d.year(), month: d.month(), day: d.day(), time_seconds: d.num_seconds_from_midnight(), text: d.to_rfc3339() })
}

// ---------------------------------------------------------------------------
// Reading a date
// ---------------------------------------------------------------------------
/// The first text in `text` that [`DATE_PATTERN`] matches.
pub open spec fn spec_find_date(text: Seq<char>) -> Option<Seq<char>> {
    match spec_regex_find(DATE_PATTERN@, text) {
        Some(Some(m)) => Some(m),
        _ => None,
    }
}

/// The first text in `text` that looks like a date.
pub fn find_date_in_string(text: &str) -> (r: Option<String>)
    ensures
        opt_view(r) == spec_find_date(text@),
{
    match regex_find(DATE_PATTERN, text) {
        Some(Some(m)) => Some(m),
        _ => None,
    }
}

/// The text before a `(` comment, trimmed; the whole text where there is
/// no `(`.
pub open spec fn strip_comment(s: Seq<char>) -> Seq<char> {
    if first_index(s, '(') >= 0 {
        trim(s.take(first_index(s, '(')))
    } else {
        s
    }
}

/// Executable [`strip_comment`].
fn strip_comment_text(s: &str) -> (r: String)
    ensures
        r@ == strip_comment(s@),
{
    let v = chars_of(s);
    proof {
        assert(v@.subrange(0, v@.len() as int) =~= v@);
    }
    match find_char(&v, 0, v.len(), '(') {
        Some(k) => {
            proof {
                crate::text::lemma_first_index(v@, '(');
            }
            let t = string_of_range(&v, 0, k);
            proof {
                assert(v@.subrange(0, k as int) =~= v@.take(k as int));
            }
            trim_text(t.as_str())
        },
        None => s.to_owned(),
    }
}

/// Whether an offset from UTC is less than a day.
pub open spec fn valid_offset(offset: int) -> bool {
    -86400 < offset < 86400
}

/// Whether a date's offset from UTC is less than a day.
fn has_valid_utc_offset(d: &Timestamp) -> (r: bool)
    ensures
        r == valid_offset(d.offset as int),
{
    d.offset > -86400 && d.offset < 86400
}

/// `s` with each `.` replaced by `:`.
pub open spec fn dots_as_colons(s: Seq<char>) -> Seq<char> {
    s.map_values(|c: char| if c == '.' { ':' } else { c })
}

/// The first `n` characters of `s` (all of `s` where it is shorter).
pub open spec fn first_chars(s: Seq<char>, n: nat) -> Seq<char> {
    if s.len() <= n {
        s
    } else {
        s.take(n as int)
    }
}

/// The texts tried as a day and time of day: the text before any comment,
/// then with dots read as colons, then its first 25 and its first 24
/// characters (the lengths of `Fri, 15 Jun 2012 16:52:52` and
/// `Fri, 5 Jun 2012 16:52:52`).
pub open spec fn day_time_attempts(text: Seq<char>) -> Seq<Seq<char>> {
    let c = strip_comment(text);
    seq![c, dots_as_colons(c), first_chars(c, 25), first_chars(c, 24)]
}

/// The date of the first of `attempts` that reads as a day and time.
pub open spec fn first_day_time(attempts: Seq<Seq<char>>) -> Option<DateView>
    decreases attempts.len(),
{
    if attempts.len() == 0 {
        None
    } else {
        match spec_day_time(attempts[0]) {
            Some(d) => Some(d),
            None => first_day_time(attempts.drop_first()),
        }
    }
}

/// The date read from a text by the last resort.
pub open spec fn spec_last_effort(text: Seq<char>) -> Option<DateView> {
    first_day_time(day_time_attempts(text))
}

/// Executable [`dots_as_colons`].
fn dots_to_colons(s: &str) -> (r: String)
    ensures
        r@ == dots_as_colons(s@),
{
    let v = chars_of(s);
    let mut r = String::new();
    let mut i: usize = 0;
    while i < v.len()
        invariant
            i <= v.len(),
            v@ == s@,
            r@ == dots_as_colons(v@.take(i as int)),
        decreases v.len() - i,
    {
        let c = if v[i] == '.' {
            ':'
        } else {
            v[i]
        };
        push_char(&mut r, c);
        proof {
            assert(dots_as_colons(v@.take(i + 1)) =~= dots_as_colons(v@.take(i as int)).push(c));
        }
        i = i + 1;
    }
    proof {
        assert(v@.take(i as int) =~= v@);
    }
    r
}

/// Executable [`first_chars`].
fn first_chars_text(s: &str, n: usize) -> (r: String)
    ensures
        r@ == first_chars(s@, n as nat),
{
    let v = chars_of(s);
    if v.len() <= n {
        s.to_owned()
    } else {
        let r = string_of_range(&v, 0, n);
        proof {
            assert(v@.subrange(0, n as int) =~= v@.take(n as int));
        }
        r
    }
}

/// The last resort for a date text: a day and time of day, read as UTC
/// (see [`day_time_attempts`]).
fn last_effort_date_finder(date_text: &str) -> (r: Option<Timestamp>)
    ensures
        opt_date_view(r) == spec_last_effort(date_text@),
        r matches Some(t) ==> rfc3339_readable(t@),
{
    let ghost a = day_time_attempts(date_text@);
    proof {
        reveal_with_fuel(first_day_time, 5);
        assert(a.drop_first()[0] == a[1]);
        assert(a.drop_first().drop_first()[0] == a[2]);
        assert(a.drop_first().drop_first().drop_first()[0] == a[3]);
        assert(a.drop_first().drop_first().drop_first().drop_first().len() == 0);
    }
    let cleaned = strip_comment_text(date_text);
    if let Some(d) = parse_day_time(cleaned.as_str()) {
        return Some(d);
    }
    let dotted = dots_to_colons(cleaned.as_str());
    if let Some(d) = parse_day_time(dotted.as_str()) {
        return Some(d);
    }
    let long = first_chars_text(cleaned.as_str(), 25);
    if let Some(d) = parse_day_time(long.as_str()) {
        return Some(d);
    }
    let short = first_chars_text(cleaned.as_str(), 24);
    parse_day_time(short.as_str())
}

/// The date read from a header text: the first date found in it, read as
/// RFC 2822, else as RFC 3339 (refused where its offset is a day or more),
/// else by the last resort.
pub open spec fn spec_parse_tentative(date: Seq<char>) -> Option<DateView> {
    if date.len() == 0 {
        None
    } else {
        match spec_find_date(date) {
            None => None,
            Some(found) => {
                let cleaned = strip_comment(found);
                match spec_rfc2822(cleaned) {
                    Some(d) => if valid_offset(d.offset) {
                        Some(d)
                    } else {
                        None
                    },
                    None => match spec_rfc3339(cleaned) {
                        Some(d) => if valid_offset(d.offset) {
                            Some(d)
                        } else {
                            None
                        },
                        None => spec_last_effort(found),
                    },
                }
            },
        }
    }
}

/// Reads the date of a header text (see [`spec_parse_tentative`]).
pub fn parse_date_tentative_raw(date: &str) -> (r: Option<Timestamp>)
    ensures
        opt_date_view(r) == spec_parse_tentative(date@),
        r matches Some(t) ==> rfc3339_readable(t@),
{
    if date.is_empty() {
        return None;
    }
    let found = match find_date_in_string(date) {
        Some(f) => f,
        None => return None,
    };
    let cleaned = strip_comment_text(found.as_str());
    if let Some(d) = parse_rfc2822(cleaned.as_str()) {
        if has_valid_utc_offset(&d) {
            return Some(d);
        }
        return None;
    }
    if let Some(d) = parse_rfc3339(cleaned.as_str()) {
        if has_valid_utc_offset(&d) {
            return Some(d);
        }
        return None;
    }
    last_effort_date_finder(found.as_str())
}

// ---------------------------------------------------------------------------
// Judging a date
// ---------------------------------------------------------------------------
/// Whether a date lies before the year 1900.
pub open spec fn too_old(d: DateView) -> bool {
    d.year < 1900
}

/// Whether a date's local year is before 1900.
pub fn is_date_too_old(date_obj: &Timestamp) -> (r: bool)
    ensures
        r == too_old(date_obj@),
{
    date_obj.year < 1900
}

/// Whether instant `a` comes strictly before instant `b`.
pub open spec fn before(a: DateView, b: DateView) -> bool {
    a.seconds < b.seconds || (a.seconds == b.seconds && a.nanos < b.nanos)
}

/// The fraction of the second of `now`, moved out of a leap second (as
/// `chrono` does when whole seconds are added).
pub open spec fn limit_nanos(now: DateView) -> int {
    if now.nanos >= 1_000_000_000 {
        now.nanos - 1_000_000_000
    } else {
        now.nanos
    }
}

/// Whether a date lies more than three days after `now`.
pub open spec fn in_future(d: DateView, now: DateView) -> bool {
    let limit = now.seconds + FUTURE_TOLERANCE_SECONDS;
    d.seconds > limit || (d.seconds == limit && d.nanos > limit_nanos(now))
}

/// Whether a date lies more than three days after `now`.
pub fn is_date_in_future(date_obj: &Timestamp, now: &Timestamp) -> (r: bool)
    requires
        now.seconds + FUTURE_TOLERANCE_SECONDS <= MAX_UTC_SECONDS,
    ensures
        r == in_future(date_obj@, now@),
{
    let limit = now.seconds + FUTURE_TOLERANCE_SECONDS;
    let nanos = if now.nanos >= 1_000_000_000 {
        now.nanos - 1_000_000_000
    } else {
        now.nanos
    };
    date_obj.seconds > limit || (date_obj.seconds == limit && date_obj.nanos > nanos)
}

/// Whether a date is too old or too far in the future to be believed.
pub open spec fn has_issues(d: DateView, now: DateView) -> bool {
    too_old(d) || in_future(d, now)
}

/// Whether a date is too old or too far in the future to be believed.
pub fn check_date_issues(date_obj: &Timestamp, now: &Timestamp) -> (r: bool)
    requires
        now.seconds + FUTURE_TOLERANCE_SECONDS <= MAX_UTC_SECONDS,
    ensures
        r == has_issues(date_obj@, now@),
{
    is_date_too_old(date_obj) || is_date_in_future(date_obj, now)
}

/// A date before 1900 read as 1900 years later, where that year is not
/// after the year of `now` and has the date's day.
pub open spec fn spec_fix_millennium(d: DateView, now: DateView) -> DateView {
    if d.year < 1900 && d.year + 1900 <= now.year {
        match spec_with_year(d, d.year + 1900) {
            Some(x) => x,
            None => d,
        }
    } else {
        d
    }
}

/// Reads a date before 1900 as 1900 years later (a two or three digit year
/// written for one after 1900).
pub fn fix_millennium_date(date_obj: Timestamp, now: &Timestamp) -> (r: Timestamp)
    ensures
        r@ == spec_fix_millennium(date_obj@, now@),
        rfc3339_readable(date_obj@) ==> rfc3339_readable(r@),
{
    if date_obj.year < 1900 {
        let adjusted = date_obj.year + 1900;
        if adjusted <= now.year {
            if let Some(fixed) = with_year(&date_obj, adjusted) {
                return fixed;
            }
        }
    }
    date_obj
}

// ---------------------------------------------------------------------------
// Choosing the date of an e-mail
// ---------------------------------------------------------------------------
/// The date found in header `key`, as a list of at most one.
pub open spec fn spec_header_date(h: Map<Seq<char>, Seq<char>>, key: Seq<char>) -> Seq<DateView> {
    if h.dom().contains(key) {
        match spec_find_date(h[key]) {
            Some(s) => match spec_parse_tentative(s) {
                Some(p) => seq![p],
                None => Seq::empty(),
            },
            None => Seq::empty(),
        }
    } else {
        Seq::empty()
    }
}

/// The dates of the `Received` and `X-Received` headers.
pub open spec fn spec_other_dates(h: Map<Seq<char>, Seq<char>>) -> Seq<DateView> {
    spec_header_date(h, "received"@) + spec_header_date(h, "x-received"@)
}

/// Executable [`spec_header_date`].
fn header_date(h: &Headers, key: &str, out: &mut Vec<Timestamp>)
    ensures
        dates_view(final(out)@) == dates_view(old(out)@) + spec_header_date(h@, key@),
        (forall|i: int| 0 <= i < old(out)@.len() ==> rfc3339_readable(#[trigger] old(out)@[i]@))
            ==> forall|i: int| 0 <= i < final(out)@.len() ==> rfc3339_readable(#[trigger] final(out)@[i]@),
{
    let ghost start = dates_view(out@);
    if let Some(values) = h.get(key) {
        if let Some(date_str) = find_date_in_string(values.as_str()) {
            if let Some(parsed) = parse_date_tentative_raw(date_str.as_str()) {
                out.push(parsed);
                proof {
                    assert(dates_view(out@) =~= start + seq![parsed@]);
                }
                return;
            }
        }
    }
    proof {
        assert(dates_view(out@) =~= start + Seq::<DateView>::empty());
    }
}

/// The dates of the `Received` and `X-Received` headers.
pub fn find_other_date_entries(email_dict: &Headers) -> (r: Vec<Timestamp>)
    ensures
        dates_view(r@) == spec_other_dates(email_dict@),
        forall|i: int| 0 <= i < r@.len() ==> rfc3339_readable(#[trigger] r@[i]@),
{
    let mut r: Vec<Timestamp> = Vec::new();
    proof {
        assert(dates_view(r@) =~= Seq::<DateView>::empty());
    }
    header_date(email_dict, "received", &mut r);
    header_date(email_dict, "x-received", &mut r);
    proof {
        assert(Seq::<DateView>::empty() + spec_header_date(email_dict@, "received"@)
            + spec_header_date(email_dict@, "x-received"@) =~= spec_other_dates(email_dict@));
    }
    r
}

/// The earliest of the dates, the first of them where several are equally
/// early.
pub open spec fn earliest(s: Seq<DateView>) -> DateView
    recommends
        s.len() > 0,
    decreases s.len(),
{
    if s.len() <= 1 {
        s[0]
    } else if before(s.last(), earliest(s.drop_last())) {
        s.last()
    } else {
        earliest(s.drop_last())
    }
}

/// Position of [`earliest`] in a non-empty list.
fn earliest_index(v: &Vec<Timestamp>) -> (r: usize)
    requires
        v.len() > 0,
    ensures
        r < v.len(),
        v@[r as int]@ == earliest(dates_view(v@)),
{
    let ghost s = dates_view(v@);
    let mut b: usize = 0;
    let mut i: usize = 1;
    proof {
        assert(s.take(1).len() == 1);
    }
    while i < v.len()
        invariant
            1 <= i <= v.len(),
            b < i,
            s == dates_view(v@),
            v@[b as int]@ == earliest(s.take(i as int)),
        decreases v.len() - i,
    {
        proof {
            assert(s.take(i + 1).drop_last() =~= s.take(i as int));
            assert(s.take(i + 1).last() == v@[i as int]@);
        }
        if v[i].seconds < v[b].seconds || (v[i].seconds == v[b].seconds && v[i].nanos
            < v[b].nanos) {
            b = i;
        }
        i = i + 1;
    }
    proof {
        assert(s.take(i as int) =~= s);
    }
    b
}

/// The date of the `Date` header, read where it is not empty.
pub open spec fn spec_date_option(h: Map<Seq<char>, Seq<char>>) -> Option<DateView> {
    if h.dom().contains("date"@) && h["date"@].len() > 0 {
        match spec_find_date(trim(h["date"@])) {
            Some(s) => spec_parse_tentative(s),
            None => None,
        }
    } else {
        None
    }
}

/// The date an e-mail was sent: its `Date` header where that is believable;
/// else the earliest date of its `Received` headers; else its `Date`
/// header moved 1900 years on where it lies before 1900; else none.
pub open spec fn spec_chosen_date(h: Map<Seq<char>, Seq<char>>, now: DateView) -> Option<DateView> {
    let o = spec_date_option(h);
    if o is Some && !has_issues(o->0, now) {
        o
    } else if spec_other_dates(h).len() > 0 {
        Some(earliest(spec_other_dates(h)))
    } else if o is Some && too_old(o->0) {
        Some(spec_fix_millennium(o->0, now))
    } else {
        None
    }
}

/// The text of the `Date` header as written, or empty.
pub open spec fn spec_client_date(h: Map<Seq<char>, Seq<char>>) -> Seq<char> {
    if h.dom().contains("date"@) {
        h["date"@]
    } else {
        Seq::empty()
    }
}

/// The header fields after [`process_date`]: `client-date` holds the
/// `Date` header as written, and `date` the chosen date in RFC 3339 (empty
/// where none was chosen).
pub open spec fn spec_processed_dates(h: Map<Seq<char>, Seq<char>>, now: DateView) -> Map<Seq<char>, Seq<char>> {
    h.insert("client-date"@, spec_client_date(h)).insert(
        "date"@,
        match spec_chosen_date(h, now) {
            Some(d) => d.text,
            None => Seq::empty(),
        },
    )
}

/// Sets the `client-date` and `date` fields of an e-mail (see
/// [`spec_processed_dates`]).
pub fn process_date(email_dict: &mut Headers, now: &Timestamp)
    requires
        now.seconds + FUTURE_TOLERANCE_SECONDS <= MAX_UTC_SECONDS,
    ensures
        final(email_dict)@ == spec_processed_dates(old(email_dict)@, now@),
        spec_chosen_date(old(email_dict)@, now@) matches Some(d) && 0 <= d.year <= 9999
            ==> spec_rfc3339(final(email_dict)@["date"@]) is Some,
{
    let raw_date = email_dict.get_or_empty("date");
    let mut option: Option<Timestamp> = None;
    if !raw_date.as_str().is_empty() {
        let trimmed = trim_text(raw_date.as_str());
        if let Some(date_str) = find_date_in_string(trimmed.as_str()) {
            option = parse_date_tentative_raw(date_str.as_str());
        }
    }
    proof {
        assert(opt_date_view(option) == spec_date_option(email_dict@));
    }
    let others = find_other_date_entries(email_dict);
    let chosen: Option<Timestamp> = match option {
        Some(d) => {
            if !check_date_issues(&d, now) {
                Some(d)
            } else if others.len() > 0 {
                let b = earliest_index(&others);
                Some(others[b].duplicate())
            } else if is_date_too_old(&d) {
                Some(fix_millennium_date(d, now))
            } else {
                None
            }
        },
        None => {
            if others.len() > 0 {
                let b = earliest_index(&others);
                Some(others[b].duplicate())
            } else {
                None
            }
        },
    };
    proof {
        assert(opt_date_view(chosen) == spec_chosen_date(old(email_dict)@, now@));
        assert(chosen matches Some(t) ==> rfc3339_readable(t@));
    }
    let text = match chosen {
        Some(d) => d.text,
        None => String::new(),
    };
    email_dict.insert(String::from_str("client-date"), raw_date);
    email_dict.insert(String::from_str("date"), text);
}

/// Law: the millennium fix moves only dates before 1900, and never to a
/// year after that of `now`.
pub proof fn law_millennium_fix_bounds(d: DateView, now: DateView)
    ensures
        d.year >= 1900 ==> spec_fix_millennium(d, now) == d,
        d.year < 1900 && d.year + 1900 > now.year ==> spec_fix_millennium(d, now) == d,
{
}

/// Law: setting the dates of an e-mail changes only its `date` and
/// `client-date` fields.
pub proof fn law_process_date_keeps_fields(h: Map<Seq<char>, Seq<char>>, now: DateView, k: Seq<char>)
    requires
        k != "date"@,
        k != "client-date"@,
    ensures
        spec_processed_dates(h, now).dom().contains(k) == h.dom().contains(k),
        h.dom().contains(k) ==> spec_processed_dates(h, now)[k] == h[k],
{
}

/// No instant comes before itself, and coming before is transitive.
proof fn lemma_before_order(a: DateView, b: DateView, c: DateView)
    ensures
        !before(a, a),
        before(a, b) && before(b, c) ==> before(a, c),
{
}

/// Law: the earliest of a non-empty list of dates is one of them, and none
/// of them comes before it.
pub proof fn law_earliest_is_earliest(s: Seq<DateView>)
    requires
        s.len() > 0,
    ensures
        exists|k: int| 0 <= k < s.len() && s[k] == earliest(s),
        forall|i: int| 0 <= i < s.len() ==> !before(#[trigger] s[i], earliest(s)),
    decreases s.len(),
{
    if s.len() == 1 {
        assert(s[0] == earliest(s));
        lemma_before_order(s[0], s[0], s[0]);
    } else {
        let init = s.drop_last();
        law_earliest_is_earliest(init);
        let e0 = earliest(init);
        let k0 = choose|k: int| 0 <= k < init.len() && init[k] == e0;
        if before(s.last(), e0) {
            assert(earliest(s) == s.last());
            assert(s[s.len() - 1] == earliest(s));
            assert forall|i: int| 0 <= i < s.len() implies !before(#[trigger] s[i], earliest(s)) by {
                lemma_before_order(s[i], s.last(), e0);
                if i < s.len() - 1 {
                    assert(s[i] == init[i]);
                    assert(!before(init[i], e0));
                }
            }
        } else {
            assert(earliest(s) == e0);
            assert(s[k0] == init[k0]);
            assert forall|i: int| 0 <= i < s.len() implies !before(#[trigger] s[i], earliest(s)) by {
                if i < s.len() - 1 {
                    assert(s[i] == init[i]);
                    assert(!before(init[i], e0));
                }
            }
        }
    }
}

/// Law: when the `Date` header gives no believable date and a `Received`
/// or `X-Received` header gives one, the date chosen is one of those, and
/// none of them comes before it.
pub proof fn law_chosen_date_is_earliest_received(h: Map<Seq<char>, Seq<char>>, now: DateView)
    requires
        spec_date_option(h) is None || has_issues(spec_date_option(h)->0, now),
        spec_other_dates(h).len() > 0,
    ensures
        spec_chosen_date(h, now) is Some,
        exists|k: int|
            0 <= k < spec_other_dates(h).len() && spec_other_dates(h)[k] == spec_chosen_date(h, now)->0,
        forall|i: int|
            0 <= i < spec_other_dates(h).len() ==> !before(
                #[trigger] spec_other_dates(h)[i],
                spec_chosen_date(h, now)->0,
            ),
{
    law_earliest_is_earliest(spec_other_dates(h));
}

} // verus!
