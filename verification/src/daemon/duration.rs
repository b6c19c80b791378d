//! Durations as users write them.

use vstd::prelude::*;

use crate::error::ProcessManagerError;
use crate::text::{
    all_digits, chars_of, decimal, is_digit, is_space, law_decimal_round_trip, lemma_decimal_digits,
    parse_number, parsed, string_of, trim, trimmed, unsigned_body,
};

verus! {

/// The amount and the seconds per unit in a trimmed duration.
pub open spec fn duration_parts(v: Seq<char>) -> (Seq<char>, nat) {
    if v.len() > 0 && v.last() == 's' {
        (trimmed(v.drop_last()), 1)
    } else if v.len() > 0 && v.last() == 'm' {
        (trimmed(v.drop_last()), 60)
    } else if v.len() > 0 && v.last() == 'h' {
        (trimmed(v.drop_last()), 3600)
    } else {
        (v, 1)
    }
}

/// The seconds that `raw` stands for, capped at the largest representable number.
pub open spec fn duration_secs(raw: Seq<char>) -> Option<nat> {
    let (amount, unit) = duration_parts(trimmed(raw));
    match parsed(amount, u64::MAX as nat) {
        Some(n) => Some(
            if n * unit > u64::MAX {
                u64::MAX as nat
            } else {
                n * unit
            },
        ),
        None => None,
    }
}

/// What is wrong with a duration that cannot be read.
pub open spec fn duration_complaint(raw: Seq<char>) -> Seq<char> {
    if trimmed(raw).len() == 0 {
        "Duration value cannot be empty"@
    } else {
        "Invalid duration value: '"@ + raw + "'"@
    }
}

/// Parses a user-facing duration of the form `<number>[s|m|h]` into seconds.
pub fn parse_duration(raw: &str) -> (r: Result<u64, ProcessManagerError>)
    ensures
        match duration_secs(raw@) {
            Some(n) => r == Ok::<u64, ProcessManagerError>(n as u64),
            None => r matches Err(ProcessManagerError::ConfigParseError(m)) && m@
                == duration_complaint(raw@),
        },
{
    let value = trim(raw);
    let v = chars_of(value.as_str());
    if v.len() == 0 {
        return Err(
            ProcessManagerError::ConfigParseError("Duration value cannot be empty".to_owned()),
        );
    }
    let last = v[v.len() - 1];
    let unit: u64 = if last == 's' {
        1
    } else if last == 'm' {
        60
    } else if last == 'h' {
        3600
    } else {
        0
    };
    let amount: String = if unit > 0 {
        let body = string_of(&v, 0, v.len() - 1);
        assert(body@ =~= v@.drop_last());
        trim(body.as_str())
    } else {
        value
    };
    let scale: u64 = if unit > 0 {
        unit
    } else {
        1
    };
    match parse_number(amount.as_str(), u64::MAX) {
        Some(n) => match n.checked_mul(scale) {
            Some(total) => Ok(total),
            None => Ok(u64::MAX),
        },
        None => {
            let mut message = "Invalid duration value: '".to_owned();
            message.append(raw);
            message.append("'");
            Err(ProcessManagerError::ConfigParseError(message))
        },
    }
}

/// A number stands for that many seconds, minutes or hours, by the letter behind it, and for seconds
/// without one; what is beyond the largest number of seconds counts as the largest.
pub proof fn law_durations_count_their_unit(n: nat)
    requires
        n <= u64::MAX,
    ensures
        duration_secs(decimal(n)) == Some(n),
        duration_secs(decimal(n).push('s')) == Some(n),
        duration_secs(decimal(n).push('m')) == Some(
            if 60 * n > u64::MAX {
                u64::MAX as nat
            } else {
                60 * n
            },
        ),
        duration_secs(decimal(n).push('h')) == Some(
            if 3600 * n > u64::MAX {
                u64::MAX as nat
            } else {
                3600 * n
            },
        ),
{
    let d = decimal(n);
    law_decimal_round_trip(n, u64::MAX as nat);
    lemma_decimal_digits(n);
    assert(is_digit(d[0]) && is_digit(d.last()));
    lemma_untrimmed(d);
    lemma_with_unit(d, 's');
    lemma_with_unit(d, 'm');
    lemma_with_unit(d, 'h');
    lemma_counts(d, n, 1);
    lemma_counts(d.push('s'), n, 1);
    lemma_counts(d.push('m'), n, 60);
    lemma_counts(d.push('h'), n, 3600);
}

proof fn lemma_counts(raw: Seq<char>, n: nat, unit: nat)
    requires
        duration_parts(trimmed(raw)) == (decimal(n), unit),
        parsed(decimal(n), u64::MAX as nat) == Some(n),
    ensures
        duration_secs(raw) == Some(
            if n * unit > u64::MAX {
                u64::MAX as nat
            } else {
                n * unit
            },
        ),
{
}

/// White space around a duration does not count.
pub proof fn law_durations_may_be_padded(raw: Seq<char>, other: Seq<char>)
    requires
        trimmed(raw) == trimmed(other),
    ensures
        duration_secs(raw) == duration_secs(other),
{
}

/// A duration that is empty, or whose last character is neither a digit nor a unit, stands for
/// nothing.
pub proof fn law_durations_need_a_number(raw: Seq<char>)
    requires
        trimmed(raw).len() == 0 || !(is_digit(trimmed(raw).last()) || trimmed(raw).last() == 's'
            || trimmed(raw).last() == 'm' || trimmed(raw).last() == 'h'),
    ensures
        duration_secs(raw) is None,
{
    let v = trimmed(raw);
    if v.len() > 0 && all_digits(unsigned_body(v)) && unsigned_body(v).len() > 0 {
        let b = unsigned_body(v);
        assert(b.last() == v.last());
        assert(is_digit(b[b.len() - 1]));
    }
}

proof fn lemma_untrimmed(s: Seq<char>)
    requires
        s.len() > 0,
        !is_space(s[0]),
        !is_space(s.last()),
    ensures
        trimmed(s) == s,
{
}

proof fn lemma_with_unit(d: Seq<char>, unit: char)
    requires
        d.len() > 0,
        is_digit(d[0]),
        is_digit(d.last()),
        unit == 's' || unit == 'm' || unit == 'h',
    ensures
        trimmed(d.push(unit)) == d.push(unit),
        trimmed(d.push(unit).drop_last()) == d,
{
    assert(d.push(unit)[0] == d[0]);
    lemma_untrimmed(d.push(unit));
    assert(d.push(unit).drop_last() =~= d);
    lemma_untrimmed(d);
}

} // verus!
