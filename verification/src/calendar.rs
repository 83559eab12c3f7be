//! Events read from the desktop calendar's listing: its text format names an
//! event id, a title and a Japanese-style date, separated by fixed markers.

use vstd::prelude::*;

use crate::decimal::{digit_val, is_digit};
use crate::links::{find_lit, find_lit_exec, lemma_find_lit_bounds};

verus! {

/// A wall-clock point in time, held as plain calendar fields.
#[derive(Clone, Copy, Debug, PartialEq, Eq, Structural)]
pub struct CalendarDateTime {
    pub year: i32,
    pub month: u8,
    pub day: u8,
    pub hour: u8,
    pub minute: u8,
    pub second: u8,
}

/// Whether `y` is a leap year of the Gregorian calendar.
pub open spec fn is_leap_year(y: int) -> bool {
    y % 4 == 0 && (y % 100 != 0 || y % 400 == 0)
}

/// How many days month `m` of year `y` has.
pub open spec fn days_in_month(y: int, m: int) -> int {
    if m == 2 {
        if is_leap_year(y) {
            29
        } else {
            28
        }
    } else if m == 4 || m == 6 || m == 9 || m == 11 {
        30
    } else {
        31
    }
}

/// Whether the six fields name a real calendar date and clock time.
pub open spec fn valid_date_time(y: int, mo: int, d: int, h: int, mi: int, se: int) -> bool {
    &&& 0 <= y
    &&& 1 <= mo <= 12
    &&& 1 <= d <= days_in_month(y, mo)
    &&& 0 <= h < 24
    &&& 0 <= mi < 60
    &&& 0 <= se < 60
}

/// An event as the desktop calendar lists it.
#[derive(Debug, PartialEq, Eq)]
pub struct Event {
    pub id: String,
    pub title: String,
    pub start_time: CalendarDateTime,
}

/// Mathematical view of a calendar [`Event`].
pub struct CalendarEventView {
    pub id: Seq<char>,
    pub title: Seq<char>,
    pub start_time: CalendarDateTime,
}

impl View for Event {
    type V = CalendarEventView;

    open spec fn view(&self) -> CalendarEventView {
        CalendarEventView { id: self.id@, title: self.title@, start_time: self.start_time }
    }
}

impl DeepView for Event {
    type V = CalendarEventView;

    open spec fn deep_view(&self) -> CalendarEventView {
        self.view()
    }
}

/// Failures of reading the desktop calendar.
#[derive(Debug, PartialEq, Eq)]
pub enum Error {
    /// Running the listing failed; the text is its error output.
    ExecutionError(String),
    /// The listing's text does not have the expected shape.
    ParseError(String),
}

/// Whether `c` names a weekday in the listing's date text (the seven kanji
/// for moon, fire, water, wood, metal, earth and sun).
pub open spec fn weekday_char(c: char) -> bool {
    c == '\u{6708}' || c == '\u{706b}' || c == '\u{6c34}' || c == '\u{6728}' || c == '\u{91d1}'
        || c == '\u{571f}' || c == '\u{65e5}'
}

/// Width of a one- or two-digit number ending at the marker `mark`: two when
/// two digits and the marker follow, else one, else zero for no match. Two
/// digits are preferred, as the text is read left to right.
pub open spec fn num_width(s: Seq<char>, i: int, mark: char) -> int {
    if 0 <= i && i + 2 < s.len() && is_digit(s[i]) && is_digit(s[i + 1]) && s[i + 2] == mark {
        2
    } else if 0 <= i && i + 1 < s.len() && is_digit(s[i]) && s[i + 1] == mark {
        1
    } else {
        0
    }
}

/// The date and clock fields of the listing's date text standing at `p`:
/// a four-digit year and the year kanji, a one- or two-digit month and the
/// month kanji, a one- or two-digit day and the day kanji, a spaced weekday
/// name, and a colon-separated six-digit clock.
pub open spec fn jdate_at(s: Seq<char>, p: int) -> Option<(int, int, int, int, int, int)> {
    if !(0 <= p && p + 4 < s.len() && is_digit(s[p]) && is_digit(s[p + 1]) && is_digit(s[p + 2])
        && is_digit(s[p + 3]) && s[p + 4] == '\u{5e74}') {
        None
    } else {
        let year = 1000 * digit_val(s[p]) + 100 * digit_val(s[p + 1]) + 10 * digit_val(s[p + 2])
            + digit_val(s[p + 3]);
        let mp = p + 5;
        let mw = num_width(s, mp, '\u{6708}');
        if mw == 0 {
            None
        } else {
            let month = if mw == 2 {
                10 * digit_val(s[mp]) + digit_val(s[mp + 1])
            } else {
                digit_val(s[mp])
            };
            let dp = mp + mw + 1;
            let dw = num_width(s, dp, '\u{65e5}');
            if dw == 0 {
                None
            } else {
                let day = if dw == 2 {
                    10 * digit_val(s[dp]) + digit_val(s[dp + 1])
                } else {
                    digit_val(s[dp])
                };
                let wp = dp + dw + 1;
                if !(wp + 4 < s.len() && s[wp] == ' ' && weekday_char(s[wp + 1]) && s[wp + 2]
                    == '\u{66dc}' && s[wp + 3] == '\u{65e5}' && s[wp + 4] == ' ') {
                    None
                } else {
                    let tp = wp + 5;
                    if !(tp + 8 <= s.len() && is_digit(s[tp]) && is_digit(s[tp + 1]) && s[tp + 2]
                        == ':' && is_digit(s[tp + 3]) && is_digit(s[tp + 4]) && s[tp + 5] == ':'
                        && is_digit(s[tp + 6]) && is_digit(s[tp + 7])) {
                        None
                    } else {
                        let hour = 10 * digit_val(s[tp]) + digit_val(s[tp + 1]);
                        let minute = 10 * digit_val(s[tp + 3]) + digit_val(s[tp + 4]);
                        let second = 10 * digit_val(s[tp + 6]) + digit_val(s[tp + 7]);
                        Some((year, month, day, hour, minute, second))
                    }
                }
            }
        }
    }
}

/// The first position at or after `p` where the date text stands, with its
/// fields.
pub open spec fn jdate_find(s: Seq<char>, p: int) -> Option<(int, int, int, int, int, int)>
    decreases s.len() - p,
    when 0 <= p <= s.len()
{
    if p >= s.len() {
        None
    } else if jdate_at(s, p) is Some {
        jdate_at(s, p)
    } else {
        jdate_find(s, p + 1)
    }
}

/// Reads the one- or two-digit number ending at `mark`, as `num_width` has
/// it.
fn num_width_exec(s: &str, i: usize, mark: char) -> (r: u8)
    requires
        i <= s@.len(),
    ensures
        r as int == num_width(s@, i as int, mark),
        r == 0 || r == 1 || r == 2,
{
    let n = s.unicode_len();
    if n - i > 2 && is_digit_exec(s.get_char(i)) && is_digit_exec(s.get_char(i + 1)) && s.get_char(
        i + 2,
    ) == mark {
        2
    } else if n - i > 1 && is_digit_exec(s.get_char(i)) && s.get_char(i + 1) == mark {
        1
    } else {
        0
    }
}

/// Is `c` a decimal digit?
fn is_digit_exec(c: char) -> (r: bool)
    ensures
        r == is_digit(c),
{
    let cu = c as u32;
    48 <= cu && cu <= 57
}

/// Numeric value of a digit character.
fn digit_val_exec(c: char) -> (r: u8)
    requires
        is_digit(c),
    ensures
        r as int == digit_val(c),
        r <= 9,
{
    (c as u32 - 48) as u8
}

/// Reads the date fields standing at `p`, as `jdate_at` has them.
fn jdate_at_exec(s: &str, p: usize) -> (r: Option<CalendarDateTime>)
    requires
        p <= s@.len(),
    ensures
        r is Some <==> jdate_at(s@, p as int) is Some,
        r matches Some(d) ==> ({
            let c = jdate_at(s@, p as int)->0;
            &&& d.year as int == c.0
            &&& d.month as int == c.1
            &&& d.day as int == c.2
            &&& d.hour as int == c.3
            &&& d.minute as int == c.4
            &&& d.second as int == c.5
            &&& 0 <= d.year
        }),
{
    let n = s.unicode_len();
    if n - p <= 4 {
        return None;
    }
    if !(is_digit_exec(s.get_char(p)) && is_digit_exec(s.get_char(p + 1)) && is_digit_exec(
        s.get_char(p + 2),
    ) && is_digit_exec(s.get_char(p + 3)) && s.get_char(p + 4) == '\u{5e74}') {
        return None;
    }
    let year: i32 = 1000 * (digit_val_exec(s.get_char(p)) as i32) + 100 * (digit_val_exec(
        s.get_char(p + 1),
    ) as i32) + 10 * (digit_val_exec(s.get_char(p + 2)) as i32) + (digit_val_exec(
        s.get_char(p + 3),
    ) as i32);
    let mp = p + 5;
    let mw = num_width_exec(s, mp, '\u{6708}');
    if mw == 0 {
        return None;
    }
    let month: u8 = if mw == 2 {
        10 * digit_val_exec(s.get_char(mp)) + digit_val_exec(s.get_char(mp + 1))
    } else {
        digit_val_exec(s.get_char(mp))
    };
    let dp = mp + (mw as usize) + 1;
    let dw = num_width_exec(s, dp, '\u{65e5}');
    if dw == 0 {
        return None;
    }
    let day: u8 = if dw == 2 {
        10 * digit_val_exec(s.get_char(dp)) + digit_val_exec(s.get_char(dp + 1))
    } else {
        digit_val_exec(s.get_char(dp))
    };
    let wp = dp + (dw as usize) + 1;
    if n - wp <= 4 {
        return None;
    }
    let w = s.get_char(wp + 1);
    if !(s.get_char(wp) == ' ' && (w == '\u{6708}' || w == '\u{706b}' || w == '\u{6c34}' || w
        == '\u{6728}' || w == '\u{91d1}' || w == '\u{571f}' || w == '\u{65e5}') && s.get_char(
        wp + 2,
    ) == '\u{66dc}' && s.get_char(wp + 3) == '\u{65e5}' && s.get_char(wp + 4) == ' ') {
        return None;
    }
    let tp = wp + 5;
    if n - tp < 8 {
        return None;
    }
    if !(is_digit_exec(s.get_char(tp)) && is_digit_exec(s.get_char(tp + 1)) && s.get_char(tp + 2)
        == ':' && is_digit_exec(s.get_char(tp + 3)) && is_digit_exec(s.get_char(tp + 4))
        && s.get_char(tp + 5) == ':' && is_digit_exec(s.get_char(tp + 6)) && is_digit_exec(
        s.get_char(tp + 7),
    )) {
        return None;
    }
    let hour: u8 = 10 * digit_val_exec(s.get_char(tp)) + digit_val_exec(s.get_char(tp + 1));
    let minute: u8 = 10 * digit_val_exec(s.get_char(tp + 3)) + digit_val_exec(s.get_char(tp + 4));
    let second: u8 = 10 * digit_val_exec(s.get_char(tp + 6)) + digit_val_exec(s.get_char(tp + 7));
    Some(CalendarDateTime { year, month, day, hour, minute, second })
}

/// How many days month `m` of year `y` has.
pub fn days_in_month_exec(y: i32, m: u8) -> (r: u8)
    requires
        0 <= y,
        1 <= m <= 12,
    ensures
        r as int == days_in_month(y as int, m as int),
{
    if m == 2 {
        if y % 4 == 0 && (y % 100 != 0 || y % 400 == 0) {
            29
        } else {
            28
        }
    } else if m == 4 || m == 6 || m == 9 || m == 11 {
        30
    } else {
        31
    }
}

/// The fields of the line's first date text, when they name a real date and
/// time; `None` both when no date text stands anywhere and when the first
/// one is out of range.
pub open spec fn jdate_result(s: Seq<char>) -> Option<(int, int, int, int, int, int)> {
    match jdate_find(s, 0) {
        Some(c) => {
            if valid_date_time(c.0, c.1, c.2, c.3, c.4, c.5) {
                Some(c)
            } else {
                None
            }
        },
        None => None,
    }
}

impl Event {
    /// Reads the first date text of the listing's line: Err both when no
    /// date text stands anywhere and when the first one names no real date
    /// or time, rather than a crash on bad text.
    #[verifier::loop_isolation(false)]
    pub fn parse_japanese_date(date_string: &str) -> (r: Result<CalendarDateTime, Error>)
        ensures
            r is Ok <==> jdate_result(date_string@) is Some,
            r matches Ok(d) ==> ({
                let c = jdate_result(date_string@)->0;
                &&& d.year as int == c.0
                &&& d.month as int == c.1
                &&& d.day as int == c.2
                &&& d.hour as int == c.3
                &&& d.minute as int == c.4
                &&& d.second as int == c.5
            }),
    {
        let n = date_string.unicode_len();
        let mut p: usize = 0;
        while p < n
            invariant
                p <= n,
                n == date_string@.len(),
                jdate_find(date_string@, 0) == jdate_find(date_string@, p as int),
            decreases n - p,
        {
            match jdate_at_exec(date_string, p) {
                Some(d) => {
                    let ok = if 1 <= d.month && d.month <= 12 && d.hour < 24 && d.minute < 60
                        && d.second < 60 {
                        1 <= d.day && d.day <= days_in_month_exec(d.year, d.month)
                    } else {
                        false
                    };
                    if ok {
                        return Ok(d);
                    } else {
                        return Err(Error::ParseError("date or time component out of range".to_owned()));
                    }
                },
                None => {},
            }
            p = p + 1;
        }
        Err(Error::ParseError("date format is invalid".to_owned()))
    }
}

/// The fields of one listed event: an id, a title and a valid date, joined
/// by the part marker, with exactly three parts.
pub open spec fn parse_event_spec(s: Seq<char>) -> Option<
    (Seq<char>, Seq<char>, (int, int, int, int, int, int)),
> {
    let a = find_lit(s, "|||"@, 0);
    if a >= s.len() {
        None
    } else {
        let b = find_lit(s, "|||"@, a + 3);
        if b >= s.len() {
            None
        } else {
            let c = find_lit(s, "|||"@, b + 3);
            if c < s.len() {
                None
            } else {
                match jdate_result(s.subrange(b + 3, s.len() as int)) {
                    Some(caps) => Some((s.subrange(0, a), s.subrange(a + 3, b), caps)),
                    None => None,
                }
            }
        }
    }
}

/// The listing's non-empty chunks between the event markers, in order.
pub open spec fn segments(s: Seq<char>, from: int) -> Seq<Seq<char>>
    decreases s.len() - from,
    when 0 <= from <= s.len()
    via segments_decreases
{
    let e = find_lit(s, "###"@, from);
    let seg = s.subrange(from, e);
    let head: Seq<Seq<char>> = if seg.len() == 0 {
        Seq::empty()
    } else {
        seq![seg]
    };
    if e >= s.len() {
        head
    } else {
        head + segments(s, e + 3)
    }
}

#[via_fn]
proof fn segments_decreases(s: Seq<char>, from: int) {
    lemma_find_lit_bounds(s, "###"@, from);
    reveal_strlit("###");
}

impl Event {
    /// Runs the listing's text apart on the event markers and reads each
    /// non-empty chunk as one event; the first malformed chunk fails the
    /// whole read with its error, rather than a crash.
    pub fn parse_events_output(result: &str) -> (r: Result<Vec<Event>, Error>)
        ensures
            r is Ok <==> (forall|k: int|
                0 <= k < segments(result@, 0).len() ==> parse_event_spec(
                    #[trigger] segments(result@, 0)[k],
                ) is Some),
            r matches Ok(evs) ==> ({
                &&& evs.deep_view().len() == segments(result@, 0).len()
                &&& forall|k: int|
                    0 <= k < evs.deep_view().len() ==> ({
                        let c = parse_event_spec(segments(result@, 0)[k])->0;
                        &&& (#[trigger] evs.deep_view()[k]).id == c.0
                        &&& evs.deep_view()[k].title == c.1
                        &&& evs.deep_view()[k].start_time.year as int == c.2.0
                        &&& evs.deep_view()[k].start_time.month as int == c.2.1
                        &&& evs.deep_view()[k].start_time.day as int == c.2.2
                        &&& evs.deep_view()[k].start_time.hour as int == c.2.3
                        &&& evs.deep_view()[k].start_time.minute as int == c.2.4
                        &&& evs.deep_view()[k].start_time.second as int == c.2.5
                    })
            }),
    {
        let n = result.unicode_len();
        let ghost total = segments(result@, 0);
        let mut out: Vec<Event> = Vec::new();
        let ghost mut done: Seq<Seq<char>> = Seq::empty();
        let mut from: usize = 0;
        proof {
            reveal_strlit("###");
            assert(total =~= done + segments(result@, 0));
        }
        loop
            invariant_except_break
                from <= n,
                n == result@.len(),
                "###"@.len() == 3,
                total == segments(result@, 0),
                total =~= done + segments(result@, from as int),
                out.deep_view().len() == done.len(),
                forall|k: int|
                    0 <= k < done.len() ==> parse_event_spec(#[trigger] done[k]) is Some,
                forall|k: int|
                    0 <= k < done.len() ==> ({
                        let c = parse_event_spec(done[k])->0;
                        &&& (#[trigger] out.deep_view()[k]).id == c.0
                        &&& out.deep_view()[k].title == c.1
                        &&& out.deep_view()[k].start_time.year as int == c.2.0
                        &&& out.deep_view()[k].start_time.month as int == c.2.1
                        &&& out.deep_view()[k].start_time.day as int == c.2.2
                        &&& out.deep_view()[k].start_time.hour as int == c.2.3
                        &&& out.deep_view()[k].start_time.minute as int == c.2.4
                        &&& out.deep_view()[k].start_time.second as int == c.2.5
                    }),
            ensures
                done == total,
                out.deep_view().len() == done.len(),
                forall|k: int|
                    0 <= k < done.len() ==> parse_event_spec(#[trigger] done[k]) is Some,
                forall|k: int|
                    0 <= k < done.len() ==> ({
                        let c = parse_event_spec(done[k])->0;
                        &&& (#[trigger] out.deep_view()[k]).id == c.0
                        &&& out.deep_view()[k].title == c.1
                        &&& out.deep_view()[k].start_time.year as int == c.2.0
                        &&& out.deep_view()[k].start_time.month as int == c.2.1
                        &&& out.deep_view()[k].start_time.day as int == c.2.2
                        &&& out.deep_view()[k].start_time.hour as int == c.2.3
                        &&& out.deep_view()[k].start_time.minute as int == c.2.4
                        &&& out.deep_view()[k].start_time.second as int == c.2.5
                    }),
            decreases n - from,
        {
            proof {
                lemma_find_lit_bounds(result@, "###"@, from as int);
            }
            let e = find_lit_exec(result, "###", from);
            let ghost segview = result@.subrange(from as int, e as int);
            let ghost head: Seq<Seq<char>> = if segview.len() == 0 {
                Seq::empty()
            } else {
                seq![segview]
            };
            let ghost rest = if e >= n {
                Seq::<Seq<char>>::empty()
            } else {
                segments(result@, e + 3)
            };
            proof {
                assert(segments(result@, from as int) =~= head + rest);
            }
            if e > from {
                let seg = result.substring_char(from, e);
                match Self::parse_event(seg) {
                    Ok(ev) => {
                        let ghost prev = out.deep_view();
                        out.push(ev);
                        proof {
                            assert(out.deep_view() =~= prev.push(ev@));
                            done = done.push(segview);
                        }
                    },
                    Err(err) => {
                        proof {
                            assert(total[done.len() as int] == segview);
                            assert(parse_event_spec(segview) is None);
                        }
                        return Err(err);
                    },
                }
            }
            if e >= n {
                proof {
                    assert(total =~= done);
                }
                break;
            }
            from = e + 3;
        }
        Ok(out)
    }
}

impl Event {
    /// Reads one listed event off its line: the id, the title and the start
    /// time, in exactly three marker-separated parts.
    pub fn parse_event(event_str: &str) -> (r: Result<Event, Error>)
        ensures
            r is Ok <==> parse_event_spec(event_str@) is Some,
            r matches Ok(ev) ==> ({
                let c = parse_event_spec(event_str@)->0;
                &&& ev.id@ == c.0
                &&& ev.title@ == c.1
                &&& ev.start_time.year as int == c.2.0
                &&& ev.start_time.month as int == c.2.1
                &&& ev.start_time.day as int == c.2.2
                &&& ev.start_time.hour as int == c.2.3
                &&& ev.start_time.minute as int == c.2.4
                &&& ev.start_time.second as int == c.2.5
            }),
    {
        let n = event_str.unicode_len();
        proof {
            reveal_strlit("|||");
            lemma_find_lit_bounds(event_str@, "|||"@, 0);
        }
        let a = find_lit_exec(event_str, "|||", 0);
        if a >= n {
            return Err(Error::ParseError("expected 3 parts, found fewer".to_owned()));
        }
        proof {
            lemma_find_lit_bounds(event_str@, "|||"@, a + 3);
        }
        let b = find_lit_exec(event_str, "|||", a + 3);
        if b >= n {
            return Err(Error::ParseError("expected 3 parts, found fewer".to_owned()));
        }
        proof {
            lemma_find_lit_bounds(event_str@, "|||"@, b + 3);
        }
        let c = find_lit_exec(event_str, "|||", b + 3);
        if c < n {
            return Err(Error::ParseError("expected 3 parts, found more".to_owned()));
        }
        let date_part = event_str.substring_char(b + 3, n);
        match Self::parse_japanese_date(date_part) {
            Ok(start_time) => {
                let id = event_str.substring_char(0, a).to_owned();
                let title = event_str.substring_char(a + 3, b).to_owned();
                Ok(Event { id, title, start_time })
            },
            Err(e) => Err(e),
        }
    }
}

} // verus!
