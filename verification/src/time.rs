//! Civil times: `YYYY-MM-DDTHH:MM:SSZ` and seconds since the epoch.
use crate::text;
use vstd::prelude::*;

verus! {

/// `n` as far as an `i64` holds it.
pub open spec fn clamp(n: int) -> i64 {
    if n > i64::MAX {
        i64::MAX
    } else if n < i64::MIN {
        i64::MIN
    } else {
        n as i64
    }
}

/// `a - b`, at most the largest and at least the smallest `i64`.
pub fn minus(a: i64, b: i64) -> (r: i64)
    ensures
        r == clamp(a - b),
{
    let d: i128 = a as i128 - b as i128;
    if d > i64::MAX as i128 {
        i64::MAX
    } else if d < i64::MIN as i128 {
        i64::MIN
    } else {
        d as i64
    }
}

/// Days from 1970-01-01 to a date of the proleptic Gregorian calendar,
/// counted in years that begin in March and eras of 400 years.
pub open spec fn days_from_civil(year: int, month: int, day: int) -> int {
    let y = if month <= 2 {
        year - 1
    } else {
        year
    };
    let era = y / 400;
    let yoe = y - era * 400;
    let doy = (153 * ((month + 9) % 12) + 2) / 5 + day - 1;
    era * 146097 + yoe * 365 + yoe / 4 - yoe / 100 + doy - 719468
}

/// The number that the characters from `from` to `to` write. As for any
/// integer, a sign may come first.
pub open spec fn field(s: Seq<char>, from: int, to: int) -> Option<int> {
    signed(s.subrange(from, to))
}

/// The number that a text writes, with an optional sign.
pub open spec fn signed(s: Seq<char>) -> Option<int> {
    if s.len() > 0 && s[0] == '-' {
        if s.len() == 1 {
            None
        } else {
            match text::digits_value(s.drop_first(), 10) {
                Some(n) => Some(-(n as int)),
                None => None,
            }
        }
    } else {
        match text::unsigned(s, 10) {
            Some(n) => Some(n as int),
            None => None,
        }
    }
}

/// The epoch second of a time in the form `YYYY-MM-DDTHH:MM:SSZ`, 20 ASCII
/// characters.
pub open spec fn iso(s: Seq<char>) -> Option<int> {
    if s.len() != 20 || s[13] as u32 > 0x7f || s[16] as u32 > 0x7f || s[4] != '-' || s[7] != '-' || s[10] != 'T' || s[19] != 'Z' {
        None
    } else {
        match (
            field(s, 0, 4),
            field(s, 5, 7),
            field(s, 8, 10),
            field(s, 11, 13),
            field(s, 14, 16),
            field(s, 17, 19),
        ) {
            (Some(y), Some(mo), Some(d), Some(h), Some(mi), Some(sec)) => if 1 <= mo <= 12 && 1 <= d
                <= 31 && h <= 23 && mi <= 59 && sec <= 60 {
                Some(days_from_civil(y, mo, d) * 86400 + h * 3600 + mi * 60 + sec)
            } else {
                None
            },
            _ => None,
        }
    }
}

proof fn digits_bound(s: Seq<char>)
    requires
        s.len() <= 4,
    ensures
        text::digits_value(s, 10) is Some ==> text::digits_value(s, 10)->0 <= 9999,
{
    reveal_with_fuel(text::digits_value, 5);
    if s.len() > 0 {
        let a = s.drop_last();
        if a.len() > 0 {
            let b = a.drop_last();
            if b.len() > 0 {
                let c = b.drop_last();
            }
        }
    }
}

fn field_of(v: &Vec<char>, from: usize, to: usize) -> (r: Option<i64>)
    requires
        from < to <= v@.len(),
        to - from <= 4,
    ensures
        match r {
            Some(n) => field(v@, from as int, to as int) == Some(n as int) && -9999 <= n <= 9999,
            None => field(v@, from as int, to as int) is None,
        },
{
    let ghost w = v@.subrange(from as int, to as int);
    let s = text::string_of(v.as_slice(), from, to);
    if v[from] == '-' {
        if to - from == 1 {
            return None;
        }
        let t = text::string_of(v.as_slice(), from + 1, to);
        assert(t@ =~= w.drop_first());
        if v[from + 1] == '+' {
            proof {
                digit_first(w.drop_first());
            }
            return None;
        }
        proof {
            digits_bound(t@);
            assert(text::unsigned_digits(t@) == t@);
        }
        match text::parse_unsigned(t.as_str(), 10, 9999) {
            Some(n) => Some(-(n as i64)),
            None => None,
        }
    } else {
        proof {
            digits_bound(text::unsigned_digits(s@));
        }
        match text::parse_unsigned(s.as_str(), 10, 9999) {
            Some(n) => Some(n as i64),
            None => None,
        }
    }
}

proof fn digit_first(s: Seq<char>)
    requires
        s.len() > 0,
        s[0] == '+',
    ensures
        text::digits_value(s, 10) is None,
    decreases s.len(),
{
    if s.len() > 1 {
        assert(s.drop_last()[0] == '+');
        digit_first(s.drop_last());
    }
}

/// The `i64` that a text writes.
pub open spec fn integer(s: Seq<char>) -> Option<i64> {
    match signed(s) {
        Some(n) => if i64::MIN <= n <= i64::MAX {
            Some(n as i64)
        } else {
            None
        },
        None => None,
    }
}

pub fn parse_integer(s: &str) -> (r: Option<i64>)
    ensures
        r == integer(s@),
{
    let v = text::chars_of(s);
    if v.len() > 0 && v[0] == '-' {
        if v.len() == 1 {
            return None;
        }
        let t = text::string_of(v.as_slice(), 1, v.len());
        assert(t@ =~= s@.drop_first());
        if v[1] == '+' {
            proof {
                digit_first(t@);
            }
            return None;
        }
        assert(text::unsigned_digits(t@) == t@);
        match text::parse_unsigned(t.as_str(), 10, 9223372036854775808) {
            Some(n) => if n == 9223372036854775808 {
                Some(i64::MIN)
            } else {
                Some(-(n as i64))
            },
            None => None,
        }
    } else {
        match text::parse_unsigned(s, 10, 9223372036854775807) {
            Some(n) => Some(n as i64),
            None => None,
        }
    }
}

/// Parses a time in the form `YYYY-MM-DDTHH:MM:SSZ`.
pub fn parse_iso(s: &str) -> (r: Option<i64>)
    ensures
        match r {
            Some(t) => iso(s@) == Some(t as int),
            None => iso(s@) is None,
        },
{
    let v = text::chars_of(s);
    if v.len() != 20 || v[13] as u32 > 0x7f || v[16] as u32 > 0x7f || v[4] != '-' || v[7] != '-' || v[10] != 'T' || v[19] != 'Z' {
        return None;
    }
    match (
        field_of(&v, 0, 4),
        field_of(&v, 5, 7),
        field_of(&v, 8, 10),
        field_of(&v, 11, 13),
        field_of(&v, 14, 16),
        field_of(&v, 17, 19),
    ) {
        (Some(y), Some(mo), Some(d), Some(h), Some(mi), Some(sec)) => {
            if mo < 1 || mo > 12 || d < 1 || d > 31 || h > 23 || mi > 59 || sec > 60 {
                return None;
            }
            let y: i64 = if mo <= 2 {
                y - 1
            } else {
                y
            };
            // a floor division that holds below year 0 too
            let era: i64 = (y + 400000) / 400 - 1000;
            assert(era == y as int / 400);
            let yoe: i64 = y - era * 400;
            let doy: i64 = (153 * ((mo + 9) % 12) + 2) / 5 + d - 1;
            let days: i64 = era * 146097 + yoe * 365 + yoe / 4 - yoe / 100 + doy - 719468;
            Some(days * 86400 + h * 3600 + mi * 60 + sec)
        },
        _ => None,
    }
}

} // verus!
