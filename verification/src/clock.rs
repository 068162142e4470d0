//! Moments as texts.

use crate::text::{dec, decimal};
use vstd::prelude::*;

verus! {

/// Whether a year has a day more.
pub open spec fn leap(y: int) -> bool {
    y % 4 == 0 && (y % 100 != 0 || y % 400 == 0)
}

/// The number of days of a month.
pub open spec fn month_days(y: int, m: int) -> int {
    month_length(leap(y), m)
}

/// The number of days of a month, in a leap year or another.
pub open spec fn month_length(long_year: bool, m: int) -> int {
    if m == 2 {
        if long_year {
            29
        } else {
            28
        }
    } else if m == 4 || m == 6 || m == 9 || m == 11 {
        30
    } else {
        31
    }
}

/// The number of days of a year before a month.
pub open spec fn days_before(y: int, m: int) -> int
    decreases m,
{
    if m <= 1 {
        0
    } else {
        days_before(y, m - 1) + month_days(y, m - 1)
    }
}

/// The number of days from the first day of the year one to a date.
pub open spec fn day_number(y: int, m: int, d: int) -> int {
    365 * (y - 1) + (y - 1) / 4 - (y - 1) / 100 + (y - 1) / 400 + days_before(y, m) + d - 1
}

/// Whether there is such a date.
pub open spec fn is_date(y: int, m: int, d: int) -> bool {
    1 <= y && 1 <= m <= 12 && 1 <= d <= month_days(y, m)
}

/// The number of days from the first day of the year one to the first day of 1970.
pub const EPOCH_DAYS: u64 = 719_162;

proof fn lemma_year(a: int, b: int, c: int, d: int)
    requires
        0 <= a,
        0 <= b <= 3,
        0 <= c <= 24,
        0 <= d <= 3,
    ensures
        ({
            let y = 400 * a + 100 * b + 4 * c + d + 1;
            &&& (y - 1) / 4 == 100 * a + 25 * b + c
            &&& (y - 1) / 100 == 4 * a + b
            &&& (y - 1) / 400 == a
            &&& leap(y) == (d == 3 && (c != 24 || b == 3))
        }),
{
}

/// The date of a day, counted from the first day of 1970.
pub fn date_of(days: u64) -> (out: (u64, u64, u64))
    requires
        days <= 0xffff_ffff_ffff,
    ensures
        is_date(out.0 as int, out.1 as int, out.2 as int),
        day_number(out.0 as int, out.1 as int, out.2 as int) == days + EPOCH_DAYS,
{
    let n: u64 = days + EPOCH_DAYS;
    let a: u64 = n / 146_097;
    let r: u64 = n % 146_097;
    let b: u64 = if r / 36_524 > 3 {
        3
    } else {
        r / 36_524
    };
    let r: u64 = r - 36_524 * b;
    let c: u64 = r / 1461;
    let r: u64 = r % 1461;
    let d: u64 = if r / 365 > 3 {
        3
    } else {
        r / 365
    };
    let left: u64 = r - 365 * d;
    let y: u64 = 400 * a + 100 * b + 4 * c + d + 1;
    proof {
        lemma_year(a as int, b as int, c as int, d as int);
        assert(left <= 365);
        assert(left == 365 ==> leap(y as int));
    }
    let is_leap: bool = y % 4 == 0 && (y % 100 != 0 || y % 400 == 0);
    let mut m: u64 = 1;
    let mut rest: u64 = left;
    proof {
        reveal_with_fuel(days_before, 13);
    }
    while m < 12 && rest >= days_in(is_leap, m)
        invariant
            1 <= m <= 12,
            is_leap == leap(y as int),
            rest + days_before(y as int, m as int) == left,
            left <= 364 + (if is_leap {
                1int
            } else {
                0
            }),
        decreases 12 - m,
    {
        rest -= days_in(is_leap, m);
        m += 1;
    }
    proof {
        if m == 12 {
            reveal_with_fuel(days_before, 13);
        }
    }
    (y, m, rest + 1)
}

fn days_in(is_leap: bool, m: u64) -> (out: u64)
    ensures
        out == month_length(is_leap, m as int),
{
    if m == 2 {
        if is_leap {
            29
        } else {
            28
        }
    } else if m == 4 || m == 6 || m == 9 || m == 11 {
        30
    } else {
        31
    }
}

/// A number with at least `n` digits.
pub open spec fn padded(v: nat, n: nat) -> Seq<char> {
    let d = dec(v);
    if d.len() < n {
        Seq::new((n - d.len()) as nat, |i: int| '0') + d
    } else {
        d
    }
}

/// A number with at least `n` digits.
pub fn pad(v: u64, n: usize) -> (out: String)
    ensures
        out@ == padded(v as nat, n as nat),
{
    let d: String = decimal(v);
    let len: usize = d.as_str().unicode_len();
    let mut s: String = String::new();
    if len < n {
        let mut i: usize = 0;
        assert(s@ =~= Seq::new(0, |i: int| '0'));
        while i < n - len
            invariant
                i <= n - len,
                len < n,
                s@ == Seq::new(i as nat, |i: int| '0'),
            decreases n - len - i,
        {
            s.push('0');
            i += 1;
            assert(s@ =~= Seq::new(i as nat, |i: int| '0'));
        }
    }
    s.append(d.as_str());
    assert(s@ =~= padded(v as nat, n as nat));
    s
}

/// The text of a moment at a date, in thousandths of a second from its start.
pub open spec fn moment_text(y: int, m: int, d: int, ms: int) -> Seq<char> {
    padded(y as nat, 4) + "-"@ + padded(m as nat, 2) + "-"@ + padded(d as nat, 2) + "T"@ + padded(
        (ms / 3_600_000) as nat,
        2,
    ) + ":"@ + padded((ms / 60_000 % 60) as nat, 2) + ":"@ + padded((ms / 1000 % 60) as nat, 2)
        + "."@ + padded((ms % 1000) as nat, 3) + "Z"@
}

/// Whether a text is that of a moment, given in thousandths of a second from the start
/// of 1970.
pub open spec fn is_moment(s: Seq<char>, ms: int) -> bool {
    exists|y: int, m: int, d: int| #[trigger]
        is_date(y, m, d) && day_number(y, m, d) == ms / 86_400_000 + EPOCH_DAYS && s
            == moment_text(y, m, d, ms % 86_400_000)
}

/// The text of a moment, given in thousandths of a second from the start of 1970.
pub fn iso_now(ms: u64) -> (out: String)
    ensures
        is_moment(out@, ms as int),
{
    let days: u64 = ms / 86_400_000;
    let rem: u64 = ms % 86_400_000;
    let (y, m, d): (u64, u64, u64) = date_of(days);
    let mut s: String = pad(y, 4);
    s.append("-");
    s.append(pad(m, 2).as_str());
    s.append("-");
    s.append(pad(d, 2).as_str());
    s.append("T");
    s.append(pad(rem / 3_600_000, 2).as_str());
    s.append(":");
    s.append(pad(rem / 60_000 % 60, 2).as_str());
    s.append(":");
    s.append(pad(rem / 1000 % 60, 2).as_str());
    s.append(".");
    s.append(pad(rem % 1000, 3).as_str());
    s.append("Z");
    assert(is_date(y as int, m as int, d as int) && s@ == moment_text(
        y as int,
        m as int,
        d as int,
        rem as int,
    ));
    s
}

proof fn lemma_before_month(y: int, m: int)
    requires
        1 <= m <= 12,
    ensures
        0 <= days_before(y, m),
        days_before(y, m) + month_days(y, m) <= 365 + (if leap(y) {
            1int
        } else {
            0
        }),
{
    reveal_with_fuel(days_before, 13);
}

proof fn lemma_year_start(y: int, z: int)
    requires
        1 <= y < z,
    ensures
        day_number(y, 1, 1) + 365 + (if leap(y) {
            1int
        } else {
            0
        }) <= day_number(z, 1, 1),
    decreases z - y,
{
    if z == y + 1 {
        assert(y / 4 == (y - 1) / 4 + (if y % 4 == 0 {
            1int
        } else {
            0
        }));
        assert(y / 100 == (y - 1) / 100 + (if y % 100 == 0 {
            1int
        } else {
            0
        }));
        assert(y / 400 == (y - 1) / 400 + (if y % 400 == 0 {
            1int
        } else {
            0
        }));
    } else {
        lemma_year_start(y, z - 1);
        lemma_year_start(z - 1, z);
    }
}

proof fn lemma_month_start(y: int, m: int, n: int)
    requires
        1 <= m < n <= 12,
    ensures
        days_before(y, m) + month_days(y, m) <= days_before(y, n),
{
    reveal_with_fuel(days_before, 13);
}

/// A day has one date.
pub proof fn law_one_date(y: int, m: int, d: int, y2: int, m2: int, d2: int)
    requires
        is_date(y, m, d),
        is_date(y2, m2, d2),
        day_number(y, m, d) == day_number(y2, m2, d2),
    ensures
        y == y2 && m == m2 && d == d2,
{
    lemma_before_month(y, m);
    lemma_before_month(y2, m2);
    if y < y2 {
        lemma_year_start(y, y2);
    } else if y2 < y {
        lemma_year_start(y2, y);
    } else if m < m2 {
        lemma_month_start(y, m, m2);
    } else if m2 < m {
        lemma_month_start(y, m2, m);
    }
}

} // verus!
