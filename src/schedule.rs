//! A stop's upcoming departures, rendered as one short text message.

use vstd::prelude::*;
use vstd::string::StringExecFns;
use chrono::{Datelike, Timelike};
use crate::routes::{route_number_text, route_text, RouteNumber};
use crate::text::{decimal, decimal_chars, digit_char, string_of};

verus! {

/// The longest reply, in characters.
pub const MAX_RESPONSE_LENGTH: usize = 140;

/// A departure this many minutes after its scheduled time is shown as late.
pub const DELAY_THRESHOLD: i64 = 3;

/// A departure this many minutes before its scheduled time is shown as ahead.
pub const AHEAD_THRESHOLD: i64 = 1;

/// The stop that a schedule is for.
pub struct Stop {
    pub name: String,
    pub number: u32,
}

/// The upstream service sends either one stop or a list holding it.
pub enum StopData {
    Single(Stop),
    Multiple(Vec<Stop>),
}

/// One departure of one route variant.
pub struct ScheduledStop {
    pub variant_name: String,
    /// Estimated departure, `YYYY-MM-DDTHH:MM:SS`, local time.
    pub estimated: String,
    /// Scheduled departure, in the same form.
    pub scheduled: String,
}

pub struct RouteSchedule {
    pub route: RouteNumber,
    pub scheduled_stops: Vec<ScheduledStop>,
}

pub struct StopSchedule {
    pub stop_data: StopData,
    pub route_schedules: Vec<RouteSchedule>,
}

/// A local date and time, to the second.
#[derive(Clone, Copy, Debug, PartialEq, Eq, Structural)]
pub struct Timestamp {
    pub year: i32,
    pub month: u32,
    pub day: u32,
    pub hour: u32,
    pub minute: u32,
    pub second: u32,
}

/// One line of a schedule before its clock time is written: when it leaves, and the
/// route, variant and delay text.
pub struct ScheduleEntry {
    pub departure: Timestamp,
    pub line: String,
}

impl View for ScheduleEntry {
    type V = (Timestamp, Seq<char>);

    open spec fn view(&self) -> (Timestamp, Seq<char>) {
        (self.departure, self.line@)
    }
}

#[derive(Debug, PartialEq, Eq, Structural)]
pub enum ScheduleError {
    /// The stop list of the answer was empty.
    NoStop,
    /// A departure time could not be read.
    BadTimestamp,
}

pub open spec fn is_leap_year(y: int) -> bool {
    (y % 4 == 0 && y % 100 != 0) || y % 400 == 0
}

pub open spec fn days_in_month(y: int, m: int) -> int {
    if m == 2 {
        if is_leap_year(y) {
            29
        } else {
            28
        }
    } else if m == 4 || m == 6 || m == 9 || m == 11 {
        30
    } else {
        31
    }
}

/// The earliest year of the calendar that timestamps are read in.
pub const MIN_YEAR: i32 = -262143;

/// The latest year of the calendar that timestamps are read in.
pub const MAX_YEAR: i32 = 262142;

impl Timestamp {
    /// A real date and time of day.
    pub open spec fn valid(self) -> bool {
        &&& MIN_YEAR <= self.year <= MAX_YEAR
        &&& 1 <= self.month <= 12
        &&& 1 <= self.day <= days_in_month(self.year as int, self.month as int)
        &&& self.hour < 24
        &&& self.minute < 60
        &&& self.second < 60
    }
}

/// Days from 1970-01-01 to the given day of the proleptic Gregorian calendar.
pub open spec fn days_from_civil(y: int, m: int, d: int) -> int {
    let y1 = if m <= 2 {
        y - 1
    } else {
        y
    };
    let era = y1 / 400;
    let yoe = y1 - era * 400;
    let mp = if m > 2 {
        m - 3
    } else {
        m + 9
    };
    let doy = (153 * mp + 2) / 5 + d - 1;
    let doe = yoe * 365 + yoe / 4 - yoe / 100 + doy;
    era * 146097 + doe - 719468
}

pub open spec fn seconds_of(t: Timestamp) -> int {
    days_from_civil(t.year as int, t.month as int, t.day as int) * 86400 + t.hour * 3600 + t.minute
        * 60 + t.second
}

/// Whole minutes from `earlier` to `later`, rounded toward zero.
pub open spec fn minutes_apart(later: Timestamp, earlier: Timestamp) -> int {
    let d = seconds_of(later) - seconds_of(earlier);
    if d >= 0 {
        d / 60
    } else {
        -((-d) / 60)
    }
}

/// The form of the upstream service's departure times, in `chrono`'s notation.
pub open spec fn timestamp_format() -> Seq<char> {
    "%Y-%m-%dT%H:%M:%S"@
}

/// What `chrono::NaiveDateTime::parse_from_str` reads in a text with a format.
pub uninterp spec fn timestamp_parse(s: Seq<char>, format: Seq<char>) -> Option<Timestamp>;

/// Relies on `chrono::NaiveDateTime::parse_from_str`: the result depends on the text
/// and the format alone, and what it reads is a real date and time.
#[verifier::external_body]
fn parse_timestamp(s: &str, format: &str) -> (r: Option<Timestamp>)
    ensures
        r == timestamp_parse(s@, format@),
        r is Some ==> r->0.valid(),
{
    chrono::NaiveDateTime::parse_from_str(s, format).ok().map(|t| Timestamp {
        year: t.year(),
        month: t.month(),
        day: t.day(),
        hour: t.hour(),
        minute: t.minute(),
        second: t.second(),
    })
}

/// Relies on `chrono::NaiveDateTime::signed_duration_since` and `TimeDelta::num_minutes`:
/// the whole minutes between two times, rounded toward zero.
#[verifier::external_body]
fn minutes_between(later: &Timestamp, earlier: &Timestamp) -> (r: i64)
    requires
        later.valid(),
        earlier.valid(),
    ensures
        r as int == minutes_apart(*later, *earlier),
{
    let at = |t: &Timestamp| {
        chrono::NaiveDate::from_ymd_opt(t.year, t.month, t.day).and_then(
            |d| d.and_hms_opt(t.hour, t.minute, t.second),
        ).unwrap()
    };
    at(later).signed_duration_since(at(earlier)).num_minutes()
}

/// The note on a departure that leaves `delta` minutes after its scheduled time.
pub open spec fn annotation(delta: int) -> Seq<char> {
    if delta >= DELAY_THRESHOLD {
        " ("@ + decimal(delta as nat) + "min late)"@
    } else if delta <= -AHEAD_THRESHOLD {
        " ("@ + decimal((-delta) as nat) + "min ahead)"@
    } else {
        Seq::empty()
    }
}

/// The note for a departure `delta` minutes after schedule: late from three minutes
/// on, ahead from one minute early on, else nothing.
pub fn delay_annotation(delta: i64) -> (r: String)
    ensures
        r@ == annotation(delta as int),
{
    if delta >= DELAY_THRESHOLD {
        let mut s = String::from_str(" (");
        s.append(string_of(decimal_chars(delta as u64).as_slice()).as_str());
        s.append("min late)");
        s
    } else if delta <= -AHEAD_THRESHOLD {
        let ahead: u64 = (-(delta + 1)) as u64 + 1;
        let mut s = String::from_str(" (");
        s.append(string_of(decimal_chars(ahead).as_slice()).as_str());
        s.append("min ahead)");
        s
    } else {
        String::new()
    }
}

pub open spec fn two_digits(n: nat) -> Seq<char> {
    seq![digit_char(n / 10), digit_char(n % 10)]
}

pub open spec fn hour_of_twelve(h: nat) -> nat {
    if h % 12 == 0 {
        12
    } else {
        h % 12
    }
}

/// A departure's clock time: `4:29p` on a 12-hour clock, `16:29` on a 24-hour one.
pub open spec fn clock(t: Timestamp, twelve_hour: bool) -> Seq<char> {
    if twelve_hour {
        decimal(hour_of_twelve(t.hour as nat)) + ":"@ + two_digits(t.minute as nat) + (if t.hour
            < 12 {
            "a"@
        } else {
            "p"@
        })
    } else {
        two_digits(t.hour as nat) + ":"@ + two_digits(t.minute as nat)
    }
}

fn two_digit_text(n: u32) -> (r: String)
    requires
        n < 100,
    ensures
        r@ == two_digits(n as nat),
{
    let tens = decimal_chars((n / 10) as u64);
    let ones = decimal_chars((n % 10) as u64);
    let v = vec![tens[0], ones[0]];
    string_of(v.as_slice())
}

/// The clock time of `t`, on a 12- or 24-hour clock.
pub fn clock_text(t: &Timestamp, twelve_hour: bool) -> (r: String)
    requires
        t.hour < 24,
        t.minute < 60,
    ensures
        r@ == clock(*t, twelve_hour),
{
    if twelve_hour {
        let h = if t.hour % 12 == 0 {
            12
        } else {
            t.hour % 12
        };
        let mut s = string_of(decimal_chars(h as u64).as_slice());
        s.append(":");
        s.append(two_digit_text(t.minute).as_str());
        if t.hour < 12 {
            s.append("a");
        } else {
            s.append("p");
        }
        s
    } else {
        let mut s = two_digit_text(t.hour);
        s.append(":");
        s.append(two_digit_text(t.minute).as_str());
        s
    }
}

/// `a` is not after `b`.
pub open spec fn departs_no_later(a: Timestamp, b: Timestamp) -> bool {
    if a.year != b.year {
        a.year < b.year
    } else if a.month != b.month {
        a.month < b.month
    } else if a.day != b.day {
        a.day < b.day
    } else if a.hour != b.hour {
        a.hour < b.hour
    } else if a.minute != b.minute {
        a.minute < b.minute
    } else {
        a.second <= b.second
    }
}

fn no_later(a: &Timestamp, b: &Timestamp) -> (r: bool)
    ensures
        r == departs_no_later(*a, *b),
{
    if a.year != b.year {
        a.year < b.year
    } else if a.month != b.month {
        a.month < b.month
    } else if a.day != b.day {
        a.day < b.day
    } else if a.hour != b.hour {
        a.hour < b.hour
    } else if a.minute != b.minute {
        a.minute < b.minute
    } else {
        a.second <= b.second
    }
}

/// Where a line leaving at `t` goes among lines in departure order: after every line
/// that leaves no later.
pub open spec fn insert_position(s: Seq<(Timestamp, Seq<char>)>, t: Timestamp) -> nat
    decreases s.len(),
{
    if s.len() > 0 && departs_no_later(s[0].0, t) {
        1 + insert_position(s.drop_first(), t)
    } else {
        0
    }
}

/// The lines in departure order; lines that leave at the same time keep their order.
pub open spec fn by_departure(s: Seq<(Timestamp, Seq<char>)>) -> Seq<(Timestamp, Seq<char>)>
    decreases s.len(),
{
    if s.len() == 0 {
        s
    } else {
        let sorted = by_departure(s.drop_last());
        sorted.insert(insert_position(sorted, s.last().0) as int, s.last())
    }
}

/// The reply so far, `acc`, with as many of `lines` as fit, in order, each on a line of
/// its own; the first line that would bring the reply to the limit, and all after it,
/// are left out.
pub open spec fn fill(acc: Seq<char>, lines: Seq<Seq<char>>) -> Seq<char>
    decreases lines.len(),
{
    if lines.len() == 0 {
        acc
    } else if acc.len() + lines[0].len() < MAX_RESPONSE_LENGTH {
        fill(acc + lines[0] + "\n"@, lines.drop_first())
    } else {
        acc
    }
}

/// Lines, each ended by a line break.
pub open spec fn block(lines: Seq<Seq<char>>) -> Seq<char>
    decreases lines.len(),
{
    if lines.len() == 0 {
        Seq::empty()
    } else {
        lines[0] + "\n"@ + block(lines.drop_first())
    }
}

/// The first line of a schedule: the stop's number and name.
pub open spec fn header_text(stop: Stop) -> Seq<char> {
    decimal(stop.number as nat) + " "@ + stop.name@ + "\n"@
}

/// A schedule line with its clock time in front.
pub open spec fn timed_line(e: (Timestamp, Seq<char>), twelve_hour: bool) -> Seq<char> {
    clock(e.0, twelve_hour) + " "@ + e.1
}

/// The reply for a stop: its header, then its lines in departure order while they fit.
pub open spec fn reply_text(stop: Stop, entries: Seq<(Timestamp, Seq<char>)>, twelve_hour: bool) -> Seq<
    char,
> {
    fill(
        header_text(stop),
        by_departure(entries).map_values(|e: (Timestamp, Seq<char>)| timed_line(e, twelve_hour)),
    )
}

/// A reply stays within the length limit once its header does, and it is the header
/// followed by whole lines: the first `k` lines it was offered, where the next one, if
/// any, would not have fit.
pub proof fn lemma_fill_whole_lines(acc: Seq<char>, lines: Seq<Seq<char>>) -> (k: nat)
    requires
        acc.len() <= MAX_RESPONSE_LENGTH,
    ensures
        k <= lines.len(),
        fill(acc, lines) == acc + block(lines.subrange(0, k as int)),
        fill(acc, lines).len() <= MAX_RESPONSE_LENGTH,
        k < lines.len() ==> fill(acc, lines).len() + lines[k as int].len() >= MAX_RESPONSE_LENGTH,
    decreases lines.len(),
{
    if lines.len() == 0 {
        assert(lines.subrange(0, 0) == Seq::<Seq<char>>::empty());
        assert(acc + Seq::<char>::empty() == acc);
        0
    } else if acc.len() + lines[0].len() < MAX_RESPONSE_LENGTH {
        let next = acc + lines[0] + "\n"@;
        assert("\n"@.len() == 1) by {
            reveal_strlit("\n");
        }
        let k = lemma_fill_whole_lines(next, lines.drop_first());
        let taken = lines.subrange(0, k as int + 1);
        assert(taken.drop_first() == lines.drop_first().subrange(0, k as int));
        assert(taken[0] == lines[0]);
        assert(next + block(lines.drop_first().subrange(0, k as int)) =~= acc + block(taken));
        if k + 1 < lines.len() {
            assert(lines.drop_first()[k as int] == lines[k as int + 1]);
        }
        k + 1
    } else {
        assert(lines.subrange(0, 0) == Seq::<Seq<char>>::empty());
        assert(acc + Seq::<char>::empty() == acc);
        0
    }
}

/// A schedule reply never exceeds the length limit when its header fits, and holds
/// only whole lines.
pub proof fn lemma_reply_within_limit(
    stop: Stop,
    entries: Seq<(Timestamp, Seq<char>)>,
    twelve_hour: bool,
) -> (k: nat)
    requires
        header_text(stop).len() <= MAX_RESPONSE_LENGTH,
    ensures
        reply_text(stop, entries, twelve_hour).len() <= MAX_RESPONSE_LENGTH,
        reply_text(stop, entries, twelve_hour) == header_text(stop) + block(
            by_departure(entries).map_values(
                |e: (Timestamp, Seq<char>)| timed_line(e, twelve_hour),
            ).subrange(0, k as int),
        ),
{
    lemma_fill_whole_lines(
        header_text(stop),
        by_departure(entries).map_values(|e: (Timestamp, Seq<char>)| timed_line(e, twelve_hour)),
    )
}

/// Appends lines to `reply` while they fit under the length limit.
fn fill_reply(reply: String, lines: &Vec<String>) -> (r: String)
    ensures
        r@ == fill(reply@, lines@.map_values(|s: String| s@)),
{
    let ghost all = lines@.map_values(|s: String| s@);
    let ghost start = reply@;
    let mut reply = reply;
    let mut i: usize = 0;
    let mut full = false;
    assert(all.subrange(0, all.len() as int) == all);
    while i < lines.len() && !full
        invariant
            i <= lines@.len(),
            all == lines@.map_values(|s: String| s@),
            fill(start, all) == (if full {
                reply@
            } else {
                fill(reply@, all.subrange(i as int, all.len() as int))
            }),
        decreases lines@.len() - i, if full { 0int } else { 1int },
    {
        let used = reply.as_str().unicode_len();
        let more = lines[i].as_str().unicode_len();
        assert(all.subrange(i as int, all.len() as int)[0] == lines@[i as int]@);
        assert(all.subrange(i as int, all.len() as int).drop_first() == all.subrange(
            i + 1,
            all.len() as int,
        ));
        if used < MAX_RESPONSE_LENGTH && more < MAX_RESPONSE_LENGTH - used {
            reply.append(lines[i].as_str());
            reply.append("\n");
            i += 1;
        } else {
            full = true;
        }
    }
    if !full {
        assert(all.subrange(i as int, all.len() as int) == Seq::<Seq<char>>::empty());
    }
    reply
}

/// Positions of `entries` in departure order.
fn departure_order(entries: &Vec<ScheduleEntry>) -> (r: Vec<usize>)
    ensures
        forall|k: int| 0 <= k < r@.len() ==> #[trigger] r@[k] < entries@.len(),
        r@.map_values(|k: usize| entries@[k as int]@) == by_departure(
            entries@.map_values(|e: ScheduleEntry| e@),
        ),
{
    let ghost all = entries@.map_values(|e: ScheduleEntry| e@);
    let mut order: Vec<usize> = Vec::new();
    let mut i: usize = 0;
    assert(order@.map_values(|k: usize| entries@[k as int]@) =~= by_departure(
        all.subrange(0, 0),
    ));
    while i < entries.len()
        invariant
            i <= entries@.len(),
            all == entries@.map_values(|e: ScheduleEntry| e@),
            forall|k: int| 0 <= k < order@.len() ==> #[trigger] order@[k] < i,
            order@.map_values(|k: usize| entries@[k as int]@) == by_departure(
                all.subrange(0, i as int),
            ),
        decreases entries@.len() - i,
    {
        let t = entries[i].departure;
        let ghost sorted = order@.map_values(|k: usize| entries@[k as int]@);
        let mut p: usize = 0;
        assert(sorted.subrange(0, sorted.len() as int) == sorted);
        while p < order.len() && no_later(&entries[order[p]].departure, &t)
            invariant
                p <= order@.len(),
                sorted == order@.map_values(|k: usize| entries@[k as int]@),
                forall|k: int| 0 <= k < order@.len() ==> #[trigger] order@[k] < i,
                i < entries@.len(),
                insert_position(sorted, t) == p + insert_position(
                    sorted.subrange(p as int, sorted.len() as int),
                    t,
                ),
            decreases order@.len() - p,
        {
            assert(sorted.subrange(p as int, sorted.len() as int).drop_first() == sorted.subrange(
                p + 1,
                sorted.len() as int,
            ));
            assert(sorted.subrange(p as int, sorted.len() as int)[0] == sorted[p as int]);
            p += 1;
        }
        if p < order.len() {
            assert(sorted.subrange(p as int, sorted.len() as int)[0] == sorted[p as int]);
        }
        order.insert(p, i);
        proof {
            let prefix = all.subrange(0, i + 1);
            assert(prefix.drop_last() == all.subrange(0, i as int));
            assert(prefix.last() == entries@[i as int]@);
            assert(order@.map_values(|k: usize| entries@[k as int]@) =~= sorted.insert(
                p as int,
                entries@[i as int]@,
            ));
        }
        i += 1;
    }
    assert(all.subrange(0, entries@.len() as int) == all);
    order
}

/// The reply for `stop` with the given lines: the header, then the lines in departure
/// order, each after its clock time, while they fit.
pub fn schedule_reply(stop: &Stop, entries: &Vec<ScheduleEntry>, twelve_hour: bool) -> (r: String)
    requires
        forall|i: int| 0 <= i < entries@.len() ==> (#[trigger] entries@[i]).departure.valid(),
    ensures
        r@ == reply_text(*stop, entries@.map_values(|e: ScheduleEntry| e@), twelve_hour),
{
    let mut header = string_of(decimal_chars(stop.number as u64).as_slice());
    header.append(" ");
    header.append(stop.name.as_str());
    header.append("\n");
    let order = departure_order(entries);
    let ghost sorted = order@.map_values(|k: usize| entries@[k as int]@);
    let mut lines: Vec<String> = Vec::new();
    let mut j: usize = 0;
    while j < order.len()
        invariant
            j <= order@.len(),
            sorted == order@.map_values(|k: usize| entries@[k as int]@),
            forall|k: int| 0 <= k < order@.len() ==> #[trigger] order@[k] < entries@.len(),
            forall|i: int| 0 <= i < entries@.len() ==> (#[trigger] entries@[i]).departure.valid(),
            lines@.map_values(|s: String| s@) == sorted.subrange(0, j as int).map_values(
                |e: (Timestamp, Seq<char>)| timed_line(e, twelve_hour),
            ),
        decreases order@.len() - j,
    {
        let e = &entries[order[j]];
        let mut line = clock_text(&e.departure, twelve_hour);
        line.append(" ");
        line.append(e.line.as_str());
        let ghost before = lines@;
        lines.push(line);
        assert(lines@.map_values(|s: String| s@) =~= sorted.subrange(0, j + 1).map_values(
            |e: (Timestamp, Seq<char>)| timed_line(e, twelve_hour),
        )) by {
            assert(before.map_values(|s: String| s@) == sorted.subrange(0, j as int).map_values(
                |e: (Timestamp, Seq<char>)| timed_line(e, twelve_hour),
            ));
            assert(lines@.map_values(|s: String| s@) =~= before.map_values(|s: String| s@).push(
                line@,
            ));
        }
        j += 1;
    }
    assert(sorted.subrange(0, order@.len() as int) == sorted);
    fill_reply(header, &lines)
}

/// The line for one departure: its time, and route, variant and delay note; `None`
/// when a time cannot be read.
pub open spec fn entry_of(route: Seq<char>, s: ScheduledStop) -> Option<(Timestamp, Seq<char>)> {
    match timestamp_parse(s.estimated@, timestamp_format()) {
        Some(e) => match timestamp_parse(s.scheduled@, timestamp_format()) {
            Some(c) => Some(
                (e, route + " "@ + s.variant_name@ + annotation(minutes_apart(e, c))),
            ),
            None => None,
        },
        None => None,
    }
}

/// The lines for the departures of one route, in the order given.
pub open spec fn block_entries(route: Seq<char>, stops: Seq<ScheduledStop>) -> Option<
    Seq<(Timestamp, Seq<char>)>,
>
    decreases stops.len(),
{
    if stops.len() == 0 {
        Some(Seq::empty())
    } else {
        match block_entries(route, stops.drop_last()) {
            Some(done) => match entry_of(route, stops.last()) {
                Some(e) => Some(done.push(e)),
                None => None,
            },
            None => None,
        }
    }
}

/// The rider asked for this route: the filter is empty or names it.
pub open spec fn wanted(filter: Seq<Seq<char>>, route: Seq<char>) -> bool {
    filter.len() == 0 || filter.contains(route)
}

/// The lines for every departure of the wanted routes, route by route.
pub open spec fn schedule_entries(blocks: Seq<RouteSchedule>, filter: Seq<Seq<char>>) -> Option<
    Seq<(Timestamp, Seq<char>)>,
>
    decreases blocks.len(),
{
    if blocks.len() == 0 {
        Some(Seq::empty())
    } else {
        let before = schedule_entries(blocks.drop_last(), filter);
        let b = blocks.last();
        let route = route_text(b.route);
        if !wanted(filter, route) {
            before
        } else {
            match before {
                Some(done) => match block_entries(route, b.scheduled_stops@) {
                    Some(more) => Some(done + more),
                    None => None,
                },
                None => None,
            }
        }
    }
}

/// The stop a schedule is for: the single one, or the first of a list.
pub open spec fn header_stop(d: StopData) -> Option<Stop> {
    match d {
        StopData::Single(s) => Some(s),
        StopData::Multiple(v) => if v@.len() > 0 {
            Some(v@[0])
        } else {
            None
        },
    }
}

/// Whether `route` is one that `filter` asks for.
pub fn wanted_route(filter: &Vec<String>, route: &String) -> (r: bool)
    ensures
        r == wanted(filter@.map_values(|s: String| s@), route@),
{
    if filter.len() == 0 {
        return true;
    }
    let ghost f = filter@.map_values(|s: String| s@);
    let mut i: usize = 0;
    while i < filter.len()
        invariant
            i <= filter@.len(),
            f == filter@.map_values(|s: String| s@),
            forall|k: int| 0 <= k < i ==> f[k] != route@,
        decreases filter@.len() - i,
    {
        if filter[i] == *route {
            assert(f[i as int] == route@);
            return true;
        }
        i += 1;
    }
    false
}

/// The line for one departure, or `BadTimestamp` when a time cannot be read.
fn entry_for(route: &String, s: &ScheduledStop) -> (r: Result<ScheduleEntry, ScheduleError>)
    ensures
        entry_of(route@, *s) is None <==> r is Err,
        r is Ok ==> entry_of(route@, *s) == Some(r->Ok_0@) && r->Ok_0.departure.valid(),
{
    let format = "%Y-%m-%dT%H:%M:%S";
    match parse_timestamp(s.estimated.as_str(), format) {
        Some(estimated) => match parse_timestamp(s.scheduled.as_str(), format) {
            Some(scheduled) => {
                let delta = minutes_between(&estimated, &scheduled);
                let mut line = route.clone();
                line.append(" ");
                line.append(s.variant_name.as_str());
                line.append(delay_annotation(delta).as_str());
                Ok(ScheduleEntry { departure: estimated, line })
            },
            None => Err(ScheduleError::BadTimestamp),
        },
        None => Err(ScheduleError::BadTimestamp),
    }
}

/// The reply for a stop's schedule, showing only the routes in `routes` unless it is
/// empty. It fails when the answer names no stop, or a wanted departure time cannot be
/// read.
pub fn render_schedule(schedule: &StopSchedule, routes: &Vec<String>, twelve_hour: bool) -> (r:
    Result<String, ScheduleError>)
    ensures
        header_stop(schedule.stop_data) is None ==> r == Err::<String, ScheduleError>(
            ScheduleError::NoStop,
        ),
        header_stop(schedule.stop_data) is Some && schedule_entries(
            schedule.route_schedules@,
            routes@.map_values(|s: String| s@),
        ) is None ==> r == Err::<String, ScheduleError>(ScheduleError::BadTimestamp),
        header_stop(schedule.stop_data) is Some && schedule_entries(
            schedule.route_schedules@,
            routes@.map_values(|s: String| s@),
        ) is Some ==> r is Ok && r->Ok_0@ == reply_text(
            header_stop(schedule.stop_data)->0,
            schedule_entries(schedule.route_schedules@, routes@.map_values(|s: String| s@))->0,
            twelve_hour,
        ),
{
    let stop = match &schedule.stop_data {
        StopData::Single(s) => s,
        StopData::Multiple(v) => {
            if v.len() == 0 {
                return Err(ScheduleError::NoStop);
            }
            &v[0]
        },
    };
    let ghost filter = routes@.map_values(|s: String| s@);
    let blocks = &schedule.route_schedules;
    let mut entries: Vec<ScheduleEntry> = Vec::new();
    let mut ok = true;
    let mut i: usize = 0;
    assert(blocks@.subrange(0, 0) == Seq::<RouteSchedule>::empty());
    assert(entries@.map_values(|e: ScheduleEntry| e@) =~= Seq::<(Timestamp, Seq<char>)>::empty());
    while i < blocks.len()
        invariant
            i <= blocks@.len(),
            filter == routes@.map_values(|s: String| s@),
            forall|k: int| 0 <= k < entries@.len() ==> (#[trigger] entries@[k]).departure.valid(),
            ok ==> schedule_entries(blocks@.subrange(0, i as int), filter) == Some(
                entries@.map_values(|e: ScheduleEntry| e@),
            ),
            !ok ==> schedule_entries(blocks@.subrange(0, i as int), filter) is None,
        decreases blocks@.len() - i,
    {
        let b = &blocks[i];
        let route = route_number_text(&b.route);
        let ghost prefix = blocks@.subrange(0, i + 1);
        assert(prefix.drop_last() == blocks@.subrange(0, i as int));
        assert(prefix.last() == *b);
        if wanted_route(routes, &route) {
            let mut more: Vec<ScheduleEntry> = Vec::new();
            let mut block_ok = true;
            let mut j: usize = 0;
            let stops = &b.scheduled_stops;
            assert(stops@.subrange(0, 0) == Seq::<ScheduledStop>::empty());
            assert(more@.map_values(|e: ScheduleEntry| e@) =~= Seq::<
                (Timestamp, Seq<char>),
            >::empty());
            while j < stops.len()
                invariant
                    j <= stops@.len(),
                    forall|k: int| 0 <= k < more@.len() ==> (#[trigger] more@[k]).departure.valid(),
                    block_ok ==> block_entries(route@, stops@.subrange(0, j as int)) == Some(
                        more@.map_values(|e: ScheduleEntry| e@),
                    ),
                    !block_ok ==> block_entries(route@, stops@.subrange(0, j as int)) is None,
                decreases stops@.len() - j,
            {
                let ghost sub = stops@.subrange(0, j + 1);
                assert(sub.drop_last() == stops@.subrange(0, j as int));
                assert(sub.last() == stops@[j as int]);
                if block_ok {
                    match entry_for(&route, &stops[j]) {
                        Ok(e) => {
                            let ghost before = more@.map_values(|e: ScheduleEntry| e@);
                            more.push(e);
                            assert(more@.map_values(|e: ScheduleEntry| e@) =~= before.push(e@));
                        },
                        Err(_) => {
                            block_ok = false;
                        },
                    }
                }
                j += 1;
            }
            assert(stops@.subrange(0, stops@.len() as int) == stops@);
            if ok && block_ok {
                let ghost before = entries@.map_values(|e: ScheduleEntry| e@);
                let ghost added = more@.map_values(|e: ScheduleEntry| e@);
                entries.append(&mut more);
                assert(entries@.map_values(|e: ScheduleEntry| e@) =~= before + added);
            } else {
                ok = false;
            }
        }
        i += 1;
    }
    assert(blocks@.subrange(0, blocks@.len() as int) == blocks@);
    if !ok {
        return Err(ScheduleError::BadTimestamp);
    }
    Ok(schedule_reply(stop, &entries, twelve_hour))
}

/// The upstream path of a stop's schedule.
pub fn schedule_query(stop_number: &str) -> (r: String)
    ensures
        r@ == "/v4/stops/"@ + stop_number@ + "/schedule.json?usage=short"@,
{
    let mut r = String::from_str("/v4/stops/");
    r.append(stop_number);
    r.append("/schedule.json?usage=short");
    r
}

/// The reply when the upstream service has no schedule for a stop.
pub fn no_schedule_reply(stop_number: &str) -> (r: String)
    ensures
        r@ == "No schedule found for stop "@ + stop_number@ + ", does it exist?"@,
{
    let mut r = String::from_str("No schedule found for stop ");
    r.append(stop_number);
    r.append(", does it exist?");
    r
}

/// An HTTP status in the 2xx range: the service answered with data.
pub fn is_success(status: u16) -> (r: bool)
    ensures
        r == (200 <= status && status < 300),
{
    200 <= status && status < 300
}

} // verus!
