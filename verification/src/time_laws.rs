//! The calendar and the timestamps, told by their digits.
use crate::memory::store;
use crate::text;
use crate::time;
use vstd::prelude::*;

verus! {

// ---------- the calendar ----------

/// A leap year of the Gregorian calendar.
pub open spec fn leap(y: int) -> bool {
    (y % 4 == 0 && y % 100 != 0) || y % 400 == 0
}

/// How many days a month has.
pub open spec fn month_days(y: int, m: int) -> int {
    if m == 2 {
        if leap(y) {
            29
        } else {
            28
        }
    } else if m == 4 || m == 6 || m == 9 || m == 11 {
        30
    } else {
        31
    }
}

/// Days are counted one by one; a month begins when the one before is over,
/// and a year when its December is. The count begins with 1970.
pub proof fn days_follow_each_other(y: int, m: int, d: int)
    requires
        1 <= m <= 12,
    ensures
        time::days_from_civil(y, m, d + 1) == time::days_from_civil(y, m, d) + 1,
        m < 12 ==> time::days_from_civil(y, m + 1, 1) == time::days_from_civil(y, m, 1)
            + month_days(y, m),
        m == 12 ==> time::days_from_civil(y + 1, 1, 1) == time::days_from_civil(y, 12, 1) + 31,
        time::days_from_civil(1970, 1, 1) == 0,
{
    if m == 1 {
        assert((1 + 9) % 12 == 10 && (2 + 9) % 12 == 11);
    } else if m == 2 {
        years_follow(y);
    } else if m < 12 {
        assert((m + 9) % 12 == m - 3);
        assert((m + 1 + 9) % 12 == m - 2);
        assert(m == 3 || m == 4 || m == 5 || m == 6 || m == 7 || m == 8 || m == 9 || m == 10 || m
            == 11);
    } else {
        assert((12 + 9) % 12 == 9 && (1 + 9) % 12 == 10);
    }
}

proof fn years_follow(y: int)
    ensures
        time::days_from_civil(y, 3, 1) == time::days_from_civil(y, 2, 1) + month_days(y, 2),
{
    let p = y - 1;
    let (e, f) = (p / 400, y / 400);
    let (a, b) = (p - e * 400, y - f * 400);
    assert(0 <= a < 400 && 0 <= b < 400);
    assert((2 + 9) % 12 == 11 && (3 + 9) % 12 == 0);
    if a == 399 {
        assert(f == e + 1 && b == 0);
        assert(y % 400 == 0);
    } else {
        assert(f == e && b == a + 1);
        assert(y % 400 == b);
        assert(y % 4 == b % 4);
        assert(y % 100 == b % 100);
    }
}

// ---------- timestamps ----------

pub open spec fn is_digit(c: char) -> bool {
    '0' <= c <= '9'
}

/// The digit at a place of a text.
pub open spec fn dig(s: Seq<char>, i: int) -> int {
    s[i] as int - 48
}

proof fn two_digits(s: Seq<char>, i: int)
    requires
        0 <= i,
        i + 2 <= s.len(),
        is_digit(s[i]),
        is_digit(s[i + 1]),
    ensures
        time::field(s, i, i + 2) == Some(10 * dig(s, i) + dig(s, i + 1)),
{
    let t = s.subrange(i, i + 2);
    assert(t[0] == s[i] && t[1] == s[i + 1]);
    assert(t.drop_last().drop_last() =~= Seq::empty());
    assert(t.drop_last().last() == s[i]);
    reveal_with_fuel(text::digits_value, 3);
    assert(text::unsigned_digits(t) == t);
}

proof fn four_digits(s: Seq<char>, i: int)
    requires
        0 <= i,
        i + 4 <= s.len(),
        is_digit(s[i]),
        is_digit(s[i + 1]),
        is_digit(s[i + 2]),
        is_digit(s[i + 3]),
    ensures
        time::field(s, i, i + 4) == Some(
            1000 * dig(s, i) + 100 * dig(s, i + 1) + 10 * dig(s, i + 2) + dig(s, i + 3),
        ),
{
    let t = s.subrange(i, i + 4);
    assert(t[0] == s[i] && t[1] == s[i + 1] && t[2] == s[i + 2] && t[3] == s[i + 3]);
    let a = t.drop_last();
    let b = a.drop_last();
    let c = b.drop_last();
    assert(c.drop_last() =~= Seq::empty());
    assert(a.last() == s[i + 2] && b.last() == s[i + 1] && c.last() == s[i]);
    reveal_with_fuel(text::digits_value, 5);
    assert(text::unsigned_digits(t) == t);
}

/// A timestamp is twenty characters: a date, `T`, a time of day and `Z`. It
/// tells the seconds since 1970 by its digits.
pub proof fn a_timestamp_is_read_by_its_digits(s: Seq<char>)
    requires
        s.len() == 20,
        s[4] == '-' && s[7] == '-' && s[10] == 'T' && s[13] == ':' && s[16] == ':' && s[19] == 'Z',
        is_digit(s[0]) && is_digit(s[1]) && is_digit(s[2]) && is_digit(s[3]),
        is_digit(s[5]) && is_digit(s[6]) && is_digit(s[8]) && is_digit(s[9]),
        is_digit(s[11]) && is_digit(s[12]) && is_digit(s[14]) && is_digit(s[15]),
        is_digit(s[17]) && is_digit(s[18]),
    ensures
        ({
            let y = 1000 * dig(s, 0) + 100 * dig(s, 1) + 10 * dig(s, 2) + dig(s, 3);
            let mo = 10 * dig(s, 5) + dig(s, 6);
            let d = 10 * dig(s, 8) + dig(s, 9);
            let h = 10 * dig(s, 11) + dig(s, 12);
            let mi = 10 * dig(s, 14) + dig(s, 15);
            let sec = 10 * dig(s, 17) + dig(s, 18);
            let good = 1 <= mo <= 12 && 1 <= d <= 31 && h < 24 && mi < 60 && sec <= 60;
            &&& good ==> time::iso(s) == Some(
                time::days_from_civil(y, mo, d) * 86400 + h * 3600 + mi * 60 + sec,
            )
            &&& !good ==> time::iso(s) is None
        }),
{
    four_digits(s, 0);
    two_digits(s, 5);
    two_digits(s, 8);
    two_digits(s, 11);
    two_digits(s, 14);
    two_digits(s, 17);
}

/// Nothing that is written otherwise is a timestamp.
pub proof fn what_is_no_timestamp(s: Seq<char>)
    requires
        s.len() != 20 || s[4] != '-' || s[7] != '-' || s[10] != 'T' || s[19] != 'Z',
    ensures
        time::iso(s) is None,
{
}

// ---------- the time of a verification ----------

proof fn byte_digits(b: Seq<u8>, i: int, n: int)
    requires
        0 <= i,
        n == 2 || n == 4,
        i + n <= b.len(),
        forall|k: int| i <= k < i + n ==> 48 <= #[trigger] b[k] <= 57,
    ensures
        n == 2 ==> store::number(b, i, i + n) == Some(10 * (b[i] - 48) + (b[i + 1] - 48)),
        n == 4 ==> store::number(b, i, i + n) == Some(
            1000 * (b[i] - 48) + 100 * (b[i + 1] - 48) + 10 * (b[i + 2] - 48) + (b[i + 3] - 48),
        ),
{
    reveal_with_fuel(store::value, 5);
    assert(store::digits(b, i, i + n));
}

/// A time of ASCII digits in their places is read as the day, and as the
/// second where a time of day is there.
pub proof fn a_recorded_time_is_read_by_its_digits(b: Seq<u8>)
    requires
        b.len() >= 10,
        forall|k: int| 0 <= k < b.len() ==> #[trigger] b[k] <= 0x7f,
        forall|k: int| 0 <= k < 10 && k != 4 && k != 7 ==> 48 <= #[trigger] b[k] <= 57,
        b.len() >= 19 ==> forall|k: int|
            11 <= k < 19 && k != 13 && k != 16 ==> 48 <= #[trigger] b[k] <= 57,
    ensures
        ({
            let y = 1000 * (b[0] - 48) + 100 * (b[1] - 48) + 10 * (b[2] - 48) + (b[3] - 48);
            let m = 10 * (b[5] - 48) + (b[6] - 48);
            let d = 10 * (b[8] - 48) + (b[9] - 48);
            let day = time::days_from_civil(y, m, d) * 86400;
            &&& b.len() < 19 ==> store::epoch(b) == Some(day)
            &&& b.len() >= 19 ==> store::epoch(b) == Some(
                day + (10 * (b[11] - 48) + (b[12] - 48)) * 3600 + (10 * (b[14] - 48) + (b[15]
                    - 48)) * 60 + (10 * (b[17] - 48) + (b[18] - 48)),
            )
        }),
{
    byte_digits(b, 0, 4);
    byte_digits(b, 5, 2);
    byte_digits(b, 8, 2);
    if b.len() >= 19 {
        byte_digits(b, 11, 2);
        byte_digits(b, 14, 2);
        byte_digits(b, 17, 2);
    }
}

} // verus!
