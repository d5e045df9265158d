//! Calendar time in UTC, and its text form `%Y-%m-%d %H:%M:%S`, which names
//! received images.
use chrono::{Datelike, Timelike};
use vstd::prelude::*;
use vstd::string::*;

verus! {

/// A moment in UTC, to the second.
#[derive(Debug, Clone, Copy, PartialEq, Eq, Structural)]
pub struct Timestamp {
    pub year: i32,
    pub month: u32,
    pub day: u32,
    pub hour: u32,
    pub minute: u32,
    pub second: u32,
}

impl Timestamp {
    /// Every field is in its calendar range.
    pub open spec fn wf(&self) -> bool {
        &&& 1 <= self.month <= 12
        &&& 1 <= self.day <= 31
        &&& self.hour < 24
        &&& self.minute < 60
        &&& self.second < 60
    }

    /// The Unix epoch, 1970-01-01 00:00:00.
    pub fn epoch() -> (r: Timestamp)
        ensures
            r == (Timestamp { year: 1970, month: 1, day: 1, hour: 0, minute: 0, second: 0 }),
            r.wf(),
    {
        Timestamp { year: 1970, month: 1, day: 1, hour: 0, minute: 0, second: 0 }
    }
}

/// The character of a decimal digit.
pub open spec fn spec_digit(d: nat) -> char {
    (48 + d) as char
}

/// `n` in decimal, with zeros in front up to `width` digits.
pub open spec fn spec_padded(n: nat, width: nat) -> Seq<char>
    decreases n + width,
{
    if n < 10 && width <= 1 {
        seq![spec_digit(n)]
    } else {
        spec_padded(n / 10, if width > 0 {
            (width - 1) as nat
        } else {
            0
        }).push(spec_digit(n % 10))
    }
}

/// The year as `%Y` writes it: four digits at least, and a sign in front
/// when it is negative or above 9999.
pub open spec fn spec_year(y: int) -> Seq<char> {
    if 0 <= y <= 9999 {
        spec_padded(y as nat, 4)
    } else if y > 9999 {
        seq!['+'] + spec_padded(y as nat, 4)
    } else {
        seq!['-'] + spec_padded((-y) as nat, 4)
    }
}

/// The text `%Y-%m-%d %H:%M:%S` of a moment.
pub open spec fn spec_format_timestamp(t: Timestamp) -> Seq<char> {
    spec_year(t.year as int) + seq!['-'] + spec_padded(t.month as nat, 2) + seq!['-'] + spec_padded(
        t.day as nat,
        2,
    ) + seq![' '] + spec_padded(t.hour as nat, 2) + seq![':'] + spec_padded(t.minute as nat, 2)
        + seq![':'] + spec_padded(t.second as nat, 2)
}

/// The one-character text of a decimal digit.
fn digit_text(d: u32) -> (r: &'static str)
    requires
        d < 10,
    ensures
        r@ == seq![spec_digit(d as nat)],
{
    proof {
        reveal_strlit("0");
        reveal_strlit("1");
        reveal_strlit("2");
        reveal_strlit("3");
        reveal_strlit("4");
        reveal_strlit("5");
        reveal_strlit("6");
        reveal_strlit("7");
        reveal_strlit("8");
        reveal_strlit("9");
    }
    let r = if d == 0 {
        "0"
    } else if d == 1 {
        "1"
    } else if d == 2 {
        "2"
    } else if d == 3 {
        "3"
    } else if d == 4 {
        "4"
    } else if d == 5 {
        "5"
    } else if d == 6 {
        "6"
    } else if d == 7 {
        "7"
    } else if d == 8 {
        "8"
    } else {
        "9"
    };
    assert(r@ =~= seq![spec_digit(d as nat)]);
    r
}

/// Appends `n` in decimal, with zeros in front up to `width` digits.
fn push_padded(out: &mut String, n: u32, width: u32)
    ensures
        final(out)@ == old(out)@ + spec_padded(n as nat, width as nat),
    decreases n + width,
{
    if n < 10 && width <= 1 {
        out.append(digit_text(n));
    } else {
        let w = if width > 0 {
            width - 1
        } else {
            0
        };
        push_padded(out, n / 10, w);
        out.append(digit_text(n % 10));
    }
}

/// Appends a one-character separator.
fn push_sep(out: &mut String, sep: &str, c: Ghost<char>)
    requires
        sep@ == seq![c@],
    ensures
        final(out)@ == old(out)@ + seq![c@],
{
    out.append(sep);
}

/// The text `%Y-%m-%d %H:%M:%S` of a moment, as chrono writes it.
pub fn format_timestamp(t: Timestamp) -> (r: String)
    ensures
        r@ == spec_format_timestamp(t),
{
    proof {
        reveal_strlit("+");
        reveal_strlit("-");
        reveal_strlit(" ");
        reveal_strlit(":");
        assert("+"@ =~= seq!['+']);
        assert("-"@ =~= seq!['-']);
        assert(" "@ =~= seq![' ']);
        assert(":"@ =~= seq![':']);
    }
    let mut out = String::new();
    if 0 <= t.year && t.year <= 9999 {
        push_padded(&mut out, t.year as u32, 4);
    } else if t.year > 9999 {
        push_sep(&mut out, "+", Ghost('+'));
        push_padded(&mut out, t.year as u32, 4);
    } else {
        push_sep(&mut out, "-", Ghost('-'));
        let magnitude = (0 - (t.year as i64)) as u32;
        push_padded(&mut out, magnitude, 4);
    }
    let ghost year_text = out@;
    assert(year_text =~= spec_year(t.year as int));
    push_sep(&mut out, "-", Ghost('-'));
    push_padded(&mut out, t.month, 2);
    push_sep(&mut out, "-", Ghost('-'));
    push_padded(&mut out, t.day, 2);
    push_sep(&mut out, " ", Ghost(' '));
    push_padded(&mut out, t.hour, 2);
    push_sep(&mut out, ":", Ghost(':'));
    push_padded(&mut out, t.minute, 2);
    push_sep(&mut out, ":", Ghost(':'));
    push_padded(&mut out, t.second, 2);
    assert(out@ =~= spec_format_timestamp(t));
    out
}

/// The system clock, declared so that a reading can be passed on.
#[verifier::external_type_specification]
#[verifier::external_body]
pub struct ExSystemTime(std::time::SystemTime);

/// The system clock's reading now.
///
/// Relies on `SystemTime::now`. Nothing is promised of the reading, which
/// depends on the clock.
#[verifier::external_body]
fn clock_now() -> (r: std::time::SystemTime) {
    std::time::SystemTime::now()
}

/// Whole seconds from the Unix epoch to `t`, or `None` when `t` is earlier
/// than the epoch.
///
/// Relies on `SystemTime::duration_since`, which returns an error exactly
/// when `t` is earlier than `UNIX_EPOCH`; `as_secs` only converts the
/// duration. Nothing more is promised of the number, which depends on `t`.
#[verifier::external_body]
fn secs_since_epoch(t: std::time::SystemTime) -> (r: Option<u64>) {
    match t.duration_since(std::time::UNIX_EPOCH) {
        Ok(d) => Some(d.as_secs()),
        Err(_) => None,
    }
}

/// What chrono's `DateTime::from_timestamp(secs, 0)` gives, as a
/// [`Timestamp`]: the calendar moment `secs` seconds after the Unix epoch, or
/// `None` out of chrono's range.
pub uninterp spec fn civil_of(secs: int) -> Option<Timestamp>;

/// The calendar moment `secs` seconds after the Unix epoch, or `None` when it
/// is out of the range chrono represents.
///
/// Relies on chrono's `DateTime::from_timestamp`, which depends on its
/// arguments alone and returns `None` rather than panicking, and on its
/// `Datelike` and `Timelike` accessors, whose documented ranges are: month 1
/// to 12, day 1 to 31, hour 0 to 23, minute and second 0 to 59.
#[verifier::external_body]
fn civil_time(secs: i64) -> (r: Option<Timestamp>)
    ensures
        r == civil_of(secs as int),
        r matches Some(t) ==> t.wf(),
{
    match chrono::DateTime::from_timestamp(secs, 0) {
        Some(d) => Some(
            Timestamp {
                year: d.year(),
                month: d.month(),
                day: d.day(),
                hour: d.hour(),
                minute: d.minute(),
                second: d.second(),
            },
        ),
        None => None,
    }
}

/// The moment that a clock reading stands for: the calendar moment `secs`
/// seconds after the Unix epoch, or the epoch itself when there is no
/// reading, or when it is beyond `i64` or out of chrono's range.
pub open spec fn spec_time_at(secs: Option<u64>) -> Timestamp {
    match secs {
        Some(s) => if s <= i64::MAX && civil_of(s as int) is Some {
            civil_of(s as int)->Some_0
        } else {
            Timestamp { year: 1970, month: 1, day: 1, hour: 0, minute: 0, second: 0 }
        },
        None => Timestamp { year: 1970, month: 1, day: 1, hour: 0, minute: 0, second: 0 },
    }
}

/// The moment that a clock reading of `secs` seconds after the Unix epoch
/// stands for; `None`, a reading before the epoch, stands for the epoch.
pub fn time_at(secs: Option<u64>) -> (r: Timestamp)
    ensures
        r == spec_time_at(secs),
        r.wf(),
{
    match secs {
        Some(s) => if s <= i64::MAX as u64 {
            match civil_time(s as i64) {
                Some(t) => t,
                None => Timestamp::epoch(),
            }
        } else {
            Timestamp::epoch()
        },
        None => Timestamp::epoch(),
    }
}

/// The current UTC time: [`time_at`] of the system clock's reading.
pub fn current_time() -> (r: Timestamp)
    ensures
        exists|secs: Option<u64>| r == spec_time_at(secs),
        r.wf(),
{
    time_at(secs_since_epoch(clock_now()))
}

} // verus!
