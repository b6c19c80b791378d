//! Points in time, and how users write them.

use vstd::prelude::*;

use crate::error::LogsManagerError;
use crate::text::{
    chars_of, decimal, is_digit, law_decimal_round_trip, lemma_decimal_digits, lower, lower_char,
    lower_chars, parse_range, parsed, string_of, trim, trimmed,
};

verus! {

/// A point in time: whole seconds since 1970 and nanoseconds within the second. During a leap
/// second the nanoseconds exceed one second.
#[derive(Debug, Clone, Copy, PartialEq, Eq, Structural)]
pub struct Instant {
    /// Seconds since 1970, UTC.
    pub secs: i64,
    /// Nanoseconds within the second.
    pub nanos: u32,
}

impl Instant {
    /// Whether `self` comes before `other`.
    pub open spec fn precedes(self, other: Instant) -> bool {
        self.secs < other.secs || (self.secs == other.secs && self.nanos < other.nanos)
    }

    /// Whether `self` comes before `other`.
    pub fn before(self, other: Instant) -> (r: bool)
        ensures
            r == self.precedes(other),
    {
        self.secs < other.secs || (self.secs == other.secs && self.nanos < other.nanos)
    }
}

/// The point in time that `chrono::DateTime::parse_from_rfc3339` reads from a text, as seconds
/// since 1970 and nanoseconds, when it reads one.
pub uninterp spec fn rfc3339_instant(text: Seq<char>) -> Option<(i64, u32)>;

/// The seconds since 1970 at which the day begins that `chrono::NaiveDate::parse_from_str` reads
/// from a text in a format, when it reads one.
pub uninterp spec fn date_instant(text: Seq<char>, format: Seq<char>) -> Option<i64>;

/// `chrono::DateTime::parse_from_rfc3339`: the point in time, in UTC, that the text gives.
#[verifier::external_body]
pub(crate) fn parse_rfc3339(text: &str) -> (r: Option<(i64, u32)>)
    ensures
        r == rfc3339_instant(text@),
{
    match chrono::DateTime::parse_from_rfc3339(text) {
        Ok(t) => Some((t.timestamp(), t.timestamp_subsec_nanos())),
        Err(_) => None,
    }
}

/// `chrono::NaiveDate::parse_from_str`: the day that the text gives, by the second at which it
/// begins in UTC.
#[verifier::external_body]
pub(crate) fn parse_date(text: &str, format: &str) -> (r: Option<i64>)
    ensures
        r == date_instant(text@, format@),
{
    match chrono::NaiveDate::parse_from_str(text, format) {
        Ok(d) => Some(d.and_time(chrono::NaiveTime::MIN).and_utc().timestamp()),
        Err(_) => None,
    }
}

// ---------------------------------------------------------------------------
// Ages
// ---------------------------------------------------------------------------

/// How many characters at the head of `s` are digits.
pub open spec fn digits_len(s: Seq<char>) -> int
    decreases s.len(),
{
    if s.len() > 0 && is_digit(s[0]) {
        1 + digits_len(s.skip(1))
    } else {
        0
    }
}

pub proof fn lemma_digits_len(s: Seq<char>, i: int)
    requires
        0 <= i <= s.len(),
        forall|j: int| 0 <= j < i ==> is_digit(#[trigger] s[j]),
        i < s.len() ==> !is_digit(s[i]),
    ensures
        digits_len(s) == i,
    decreases s.len(),
{
    if i > 0 {
        assert(is_digit(s[0]));
        let rest = s.skip(1);
        assert forall|j: int| 0 <= j < i - 1 implies is_digit(#[trigger] rest[j]) by {
            assert(rest[j] == s[j + 1]);
        }
        lemma_digits_len(rest, i - 1);
    }
}

/// How many seconds a unit of age stands for.
pub open spec fn age_unit(unit: Seq<char>) -> Option<nat> {
    if unit == ""@ || unit == "s"@ {
        Some(1)
    } else if unit == "m"@ {
        Some(60)
    } else if unit == "h"@ {
        Some(3600)
    } else if unit == "d"@ {
        Some(86400)
    } else if unit == "w"@ {
        Some(604800)
    } else {
        None
    }
}

/// The age in seconds that a text gives: a number and a unit, in either case.
pub open spec fn age_of(value: Seq<char>) -> Option<nat> {
    let t = trimmed(value);
    let i = digits_len(t);
    match (parsed(t.take(i), u64::MAX as nat), age_unit(lower(trimmed(t.skip(i))))) {
        (Some(n), Some(unit)) => Some(n * unit),
        _ => None,
    }
}

fn read_age(value: &str) -> (r: Option<(u64, u64)>)
    ensures
        match r {
            Some((n, unit)) => age_of(value@) == Some((n * unit) as nat) && unit > 0,
            None => age_of(value@) is None,
        },
{
    let t = trim(value);
    let v = chars_of(t.as_str());
    let mut i: usize = 0;
    while i < v.len() && '0' <= v[i] && v[i] <= '9'
        invariant
            i <= v.len(),
            forall|j: int| 0 <= j < i ==> is_digit(#[trigger] v@[j]),
        decreases v.len() - i,
    {
        i = i + 1;
    }
    proof {
        lemma_digits_len(v@, i as int);
    }
    let number = parse_range(&v, 0, i, u64::MAX);
    assert(v@.subrange(0, i as int) =~= v@.take(i as int));
    let n: u64 = match number {
        Some(n) => n,
        None => {
            return None;
        },
    };
    let rest = string_of(&v, i, v.len());
    assert(rest@ =~= v@.skip(i as int));
    let unit = trim(rest.as_str());
    let u = lower_chars(&chars_of(unit.as_str()));
    let u = string_of(&u, 0, u.len());
    assert(u@ =~= lower(trimmed(rest@)));
    let u = u.as_str();
    let secs: u64 = if crate::text::same(u, "") || crate::text::same(u, "s") {
        1
    } else if crate::text::same(u, "m") {
        60
    } else if crate::text::same(u, "h") {
        3600
    } else if crate::text::same(u, "d") {
        86400
    } else if crate::text::same(u, "w") {
        604800
    } else {
        return None;
    };
    Some((n, secs))
}

/// Whether the age that a text gives, if it gives one, fits in 64 bits.
pub fn age_fits(value: &str) -> (r: bool)
    ensures
        r == (age_of(value@) is Some ==> age_of(value@)->0 <= u64::MAX),
{
    match read_age(value) {
        Some((n, unit)) => n.checked_mul(unit).is_some(),
        None => true,
    }
}

/// Parses an age such as `7d`, `12h` or `30m` into seconds.
pub fn parse_age_seconds(value: &str) -> (r: Result<u64, LogsManagerError>)
    requires
        age_of(value@) is Some ==> age_of(value@)->0 <= u64::MAX,
    ensures
        match r {
            Ok(n) => age_of(value@) == Some(n as nat),
            Err(LogsManagerError::InvalidPruneArg(v)) => age_of(value@) is None && v@ == value@,
            Err(_) => false,
        },
{
    match read_age(value) {
        Some((n, unit)) => Ok(n * unit),
        None => Err(LogsManagerError::InvalidPruneArg(value.to_owned())),
    }
}

// ---------------------------------------------------------------------------
// Time bounds
// ---------------------------------------------------------------------------

/// The earliest second that a time bound can give.
pub const EARLIEST_SECOND: i64 = -8334601228800;

/// How a date without a time is written.
pub const DATE_FORMAT: &'static str = "%Y-%m-%d";

/// Whether an age that `value` gives reaches back no further than time bounds do.
pub open spec fn age_in_reach(value: Seq<char>, now: Instant) -> bool {
    match age_of(value) {
        Some(n) => n <= now.secs - EARLIEST_SECOND,
        None => true,
    }
}

/// Whether an age that `value` gives reaches back no further than time bounds do.
pub fn check_age_in_reach(value: &str, now: Instant) -> (r: bool)
    ensures
        r == age_in_reach(value@, now),
{
    match read_age(value) {
        Some((n, unit)) => {
            let span: i128 = now.secs as i128 - EARLIEST_SECOND as i128;
            match n.checked_mul(unit) {
                Some(age) => age as i128 <= span,
                None => false,
            }
        },
        None => true,
    }
}

/// `now` less `n` seconds. Counting back from within a leap second leaves it.
pub open spec fn counted_back(now: Instant, n: nat) -> Instant {
    if n > 0 && now.nanos >= 1_000_000_000 {
        Instant { secs: (now.secs + 1 - n) as i64, nanos: (now.nanos - 1_000_000_000) as u32 }
    } else {
        Instant { secs: (now.secs - n) as i64, nanos: now.nanos }
    }
}

/// The point in time that a bound gives, when `exact` and `midnight` are what its text reads as a
/// full timestamp and as a date: the first of these it can be read as, or else an age counted back
/// from `now`.
pub open spec fn bound_of(
    value: Seq<char>,
    now: Instant,
    exact: Option<(i64, u32)>,
    midnight: Option<i64>,
) -> Option<Instant> {
    let t = trimmed(value);
    if t.len() == 0 {
        None
    } else if exact is Some {
        Some(Instant { secs: (exact->0).0, nanos: (exact->0).1 })
    } else if midnight is Some {
        Some(Instant { secs: midnight->0, nanos: 0 })
    } else {
        match age_of(t) {
            Some(n) => Some(counted_back(now, n)),
            None => None,
        }
    }
}

/// Settles a time bound whose text has been tried as a timestamp and as a date.
pub fn settle_time_bound(
    value: &str,
    now: Instant,
    exact: Option<(i64, u32)>,
    midnight: Option<i64>,
) -> (r: Result<Instant, LogsManagerError>)
    requires
        age_in_reach(trimmed(value@), now),
    ensures
        match r {
            Ok(t) => bound_of(value@, now, exact, midnight) == Some(t),
            Err(LogsManagerError::InvalidTimeBound(v)) => v@ == value@ && bound_of(
                value@,
                now,
                exact,
                midnight,
            ) is None,
            Err(_) => false,
        },
{
    let t = trim(value);
    if t.as_str().unicode_len() == 0 {
        return Err(LogsManagerError::InvalidTimeBound(value.to_owned()));
    }
    if let Some((secs, nanos)) = exact {
        return Ok(Instant { secs, nanos });
    }
    if let Some(secs) = midnight {
        return Ok(Instant { secs, nanos: 0 });
    }
    match parse_age_seconds(t.as_str()) {
        Ok(n) => {
            let secs: i128 = now.secs as i128 - n as i128;
            if n > 0 && now.nanos >= 1_000_000_000 {
                Ok(Instant { secs: (secs + 1) as i64, nanos: now.nanos - 1_000_000_000 })
            } else {
                Ok(Instant { secs: secs as i64, nanos: now.nanos })
            }
        },
        Err(_) => Err(LogsManagerError::InvalidTimeBound(value.to_owned())),
    }
}

/// Parses a time bound: a timestamp such as `2026-07-07T14:00:00Z`, a date such as `2026-07-07`,
/// taken as midnight UTC, or an age such as `30m`, counted back from `now`.
pub fn parse_time_bound(value: &str, now: Instant) -> (r: Result<Instant, LogsManagerError>)
    requires
        age_in_reach(trimmed(value@), now),
    ensures
        ({
            let t = trimmed(value@);
            let bound = bound_of(value@, now, rfc3339_instant(t), date_instant(t, DATE_FORMAT@));
            match r {
                Ok(t) => bound == Some(t),
                Err(LogsManagerError::InvalidTimeBound(v)) => v@ == value@ && bound is None,
                Err(_) => false,
            }
        }),
{
    let t = trim(value);
    let exact = parse_rfc3339(t.as_str());
    let midnight = parse_date(t.as_str(), DATE_FORMAT);
    settle_time_bound(value, now, exact, midnight)
}

/// An age is a number of seconds, minutes, hours, days or weeks, by the letter behind it in either
/// case, and of seconds without one.
pub proof fn law_ages_count_their_unit(n: nat, unit: char, seconds: nat)
    requires
        n <= u64::MAX,
        ({
            ||| (unit == 's' || unit == 'S') && seconds == 1
            ||| (unit == 'm' || unit == 'M') && seconds == 60
            ||| (unit == 'h' || unit == 'H') && seconds == 60 * 60
            ||| (unit == 'd' || unit == 'D') && seconds == 24 * 60 * 60
            ||| (unit == 'w' || unit == 'W') && seconds == 7 * 24 * 60 * 60
        }),
    ensures
        age_of(decimal(n).push(unit)) == Some(n * seconds),
        age_of(decimal(n)) == Some(n),
{
    let d = decimal(n);
    let t = d.push(unit);
    law_decimal_round_trip(n, u64::MAX as nat);
    lemma_decimal_digits(n);
    assert(is_digit(d[0]) && is_digit(d.last()));
    assert(t[0] == d[0]);
    assert(trimmed(t) == t);
    assert(trimmed(d) == d);
    assert forall|j: int| 0 <= j < d.len() implies is_digit(#[trigger] t[j]) by {
        assert(t[j] == d[j]);
    }
    lemma_digits_len(t, d.len() as int);
    lemma_digits_len(d, d.len() as int);
    assert(t.take(d.len() as int) =~= d);
    assert(d.take(d.len() as int) =~= d);
    let u = t.skip(d.len() as int);
    assert(u =~= seq![unit]);
    assert(trimmed(u) == u);
    reveal_strlit("s");
    reveal_strlit("m");
    reveal_strlit("h");
    reveal_strlit("d");
    reveal_strlit("w");
    reveal_strlit("");
    let small = lower(u);
    assert(small.len() == 1);
    assert(small[0] == lower_char(unit));
    if seconds == 1 {
        assert(small =~= "s"@);
    } else if seconds == 60 {
        assert(small =~= "m"@);
    } else if seconds == 3600 {
        assert(small =~= "h"@);
    } else if seconds == 86400 {
        assert(small =~= "d"@);
    } else {
        assert(small =~= "w"@);
    }
    lemma_one_letter(small);
    let none = d.skip(d.len() as int);
    assert(none =~= Seq::<char>::empty());
    assert(trimmed(none) =~= Seq::<char>::empty());
    assert(lower(trimmed(none)) =~= ""@);
    assert(n * 1 == n);
}

proof fn lemma_one_letter(u: Seq<char>)
    requires
        u == "s"@ || u == "m"@ || u == "h"@ || u == "d"@ || u == "w"@,
    ensures
        u == "s"@ ==> age_unit(u) == Some(1nat),
        u == "m"@ ==> age_unit(u) == Some(60nat),
        u == "h"@ ==> age_unit(u) == Some(3600nat),
        u == "d"@ ==> age_unit(u) == Some(86400nat),
        u == "w"@ ==> age_unit(u) == Some(604800nat),
{
    reveal_strlit("s");
    reveal_strlit("m");
    reveal_strlit("h");
    reveal_strlit("d");
    reveal_strlit("w");
    reveal_strlit("");
    assert("s"@.len() == 1 && "s"@[0] == 's');
    assert("m"@.len() == 1 && "m"@[0] == 'm');
    assert("h"@.len() == 1 && "h"@[0] == 'h');
    assert("d"@.len() == 1 && "d"@[0] == 'd');
    assert("w"@.len() == 1 && "w"@[0] == 'w');
    assert(""@.len() == 0);
}

/// Counting back goes back by just that many seconds, and none at all changes nothing.
pub proof fn law_counting_back_is_exact(now: Instant, n: nat)
    requires
        i64::MIN <= now.secs - n,
        now.nanos < 1_000_000_000,
    ensures
        counted_back(now, n).secs == now.secs - n,
        counted_back(now, n).nanos == now.nanos,
        counted_back(now, 0) == now,
        n > 0 ==> counted_back(now, n).precedes(now),
{
}

/// A bound is read as a full timestamp where it is one, else as a date, which stands for its first
/// moment, else as an age before now; white space alone is no bound.
pub proof fn law_bound_is_read_in_order(
    value: Seq<char>,
    now: Instant,
    exact: Option<(i64, u32)>,
    midnight: Option<i64>,
)
    ensures
        trimmed(value).len() == 0 ==> bound_of(value, now, exact, midnight) is None,
        trimmed(value).len() > 0 ==> match (exact, midnight) {
            (Some((secs, nanos)), _) => bound_of(value, now, exact, midnight) == Some(
                Instant { secs, nanos },
            ),
            (None, Some(secs)) => bound_of(value, now, exact, midnight) == Some(
                Instant { secs, nanos: 0 },
            ),
            (None, None) => match age_of(trimmed(value)) {
                Some(n) => bound_of(value, now, exact, midnight) == Some(counted_back(now, n)),
                None => bound_of(value, now, exact, midnight) is None,
            },
        },
{
}

/// Of two different points in time just one comes before the other.
pub proof fn law_time_has_one_direction(a: Instant, b: Instant, c: Instant)
    ensures
        a != b <==> a.precedes(b) || b.precedes(a),
        !(a.precedes(b) && b.precedes(a)),
        a.precedes(b) && b.precedes(c) ==> a.precedes(c),
        a.secs < b.secs ==> a.precedes(b),
{
}

} // verus!
