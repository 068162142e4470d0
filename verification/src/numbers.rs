//! Numbers as texts: reading them, signed ones, and fractions rounded to a few
//! digits.

use crate::text::{chars_of, dec, decimal, digit};
use vstd::prelude::*;

verus! {

pub open spec fn is_figure(c: char) -> bool {
    '0' <= c <= '9'
}

/// The number that the first `n` decimal digits of a text make.
pub open spec fn figures(s: Seq<char>, n: int) -> nat
    decreases n,
{
    if n <= 0 {
        0
    } else {
        figures(s, n - 1) * 10 + (s[n - 1] as u32 - 48) as nat
    }
}

pub open spec fn all_figures(s: Seq<char>) -> bool {
    forall|i: int| 0 <= i < s.len() ==> is_figure(#[trigger] s[i])
}

/// A text without a leading plus sign.
pub open spec fn unsigned(s: Seq<char>) -> Seq<char> {
    if s.len() > 0 && s[0] == '+' {
        s.skip(1)
    } else {
        s
    }
}

/// The number that a text stands for: decimal digits, perhaps behind a plus sign,
/// with a value that fits in 64 bits.
pub open spec fn number_in(s: Seq<char>) -> Option<u64> {
    let d = unsigned(s);
    if d.len() > 0 && all_figures(d) && figures(d, d.len() as int) <= u64::MAX {
        Some(figures(d, d.len() as int) as u64)
    } else {
        None
    }
}

proof fn lemma_figures_grow(s: Seq<char>, a: int, b: int)
    requires
        0 <= a <= b <= s.len(),
        all_figures(s),
    ensures
        figures(s, a) <= figures(s, b),
    decreases b - a,
{
    if a < b {
        lemma_figures_grow(s, a, b - 1);
    }
}

/// The number that a text stands for.
pub fn read_number(s: &str) -> (out: Option<u64>)
    ensures
        out == number_in(s@),
{
    let v: Vec<char> = chars_of(s);
    let start: usize = if v.len() > 0 && v[0] == '+' {
        1
    } else {
        0
    };
    let ghost d = unsigned(s@);
    assert(d =~= s@.skip(start as int));
    if start == v.len() {
        return None;
    }
    let mut k: usize = start;
    while k < v.len()
        invariant
            start <= k <= v@.len(),
            v@ == s@,
            d == s@.skip(start as int),
            start <= 1,
            d == unsigned(s@),
            forall|i: int| 0 <= i < k - start ==> is_figure(#[trigger] d[i]),
        decreases v@.len() - k,
    {
        let c: char = v[k];
        assert(d[k - start] == c);
        if c < '0' || c > '9' {
            assert(!is_figure(d[k - start]));
            return None;
        }
        k += 1;
    }
    assert(all_figures(d));
    let mut n: u64 = 0;
    let mut i: usize = start;
    while i < v.len()
        invariant
            start <= i <= v@.len(),
            start < v@.len(),
            v@ == s@,
            start <= 1,
            d == s@.skip(start as int),
            d == unsigned(s@),
            all_figures(d),
            n == figures(d, i - start),
        decreases v@.len() - i,
    {
        let c: char = v[i];
        assert(d[i - start] == c);
        let x: u64 = (c as u32 - 48) as u64;
        proof {
            lemma_figures_grow(d, i - start + 1, d.len() as int);
        }
        if n > (u64::MAX - x) / 10 {
            assert(figures(d, i - start + 1) > u64::MAX);
            return None;
        }
        n = n * 10 + x;
        i += 1;
    }
    Some(n)
}

/// The decimal digits of a number, behind a minus sign where it is negative.
pub open spec fn signed_dec(n: int) -> Seq<char> {
    if n < 0 {
        "-"@ + dec((-n) as nat)
    } else {
        dec(n as nat)
    }
}

pub fn signed_decimal(n: i32) -> (out: String)
    ensures
        out@ == signed_dec(n as int),
{
    if n < 0 {
        let mut s: String = "-".to_owned();
        s.append(decimal((-(n as i64)) as u64).as_str());
        s
    } else {
        decimal(n as u64)
    }
}

/// A number held within 64 bits with a sign.
pub open spec fn clamp64(n: int) -> int {
    if n > i64::MAX {
        i64::MAX as int
    } else if n < i64::MIN {
        i64::MIN as int
    } else {
        n
    }
}

/// The whole number nearest to a fraction; of two equally near, the even one.
pub open spec fn nearest(num: nat, den: nat) -> nat {
    let q = num / den;
    let r = num % den;
    if 2 * r < den || (2 * r == den && q % 2 == 0) {
        q
    } else {
        q + 1
    }
}

pub fn round_nearest(num: u128, den: u128) -> (out: u128)
    requires
        0 < den <= 0x7fff_ffff_ffff_ffff_ffff_ffff_ffff_ffff,
        num < u128::MAX,
    ensures
        out == nearest(num as nat, den as nat),
{
    let q: u128 = num / den;
    let r: u128 = num % den;
    assert(q <= num) by (nonlinear_arith)
        requires
            q == num / den,
            den > 0,
    ;
    if 2 * r < den || (2 * r == den && q % 2 == 0) {
        q
    } else {
        q + 1
    }
}

/// A number of tenths as a text with one digit behind the point.
pub open spec fn tenths_text(n: nat) -> Seq<char> {
    dec(n / 10) + "."@ + seq![digit(n % 10)]
}

/// A number of thousandths as a text with three digits behind the point.
pub open spec fn thousandths_text(n: nat) -> Seq<char> {
    dec(n / 1000) + "."@ + seq![digit(n / 100 % 10), digit(n / 10 % 10), digit(n % 10)]
}

fn push_figure(out: &mut String, d: u64)
    requires
        d < 10,
    ensures
        final(out)@ == old(out)@.push(digit(d as nat)),
{
    out.push((48u8 + d as u8) as char);
}

/// The decimal digits of a large number.
pub fn wide_decimal(n: u128) -> (out: String)
    ensures
        out@ == dec(n as nat),
    decreases n,
{
    if n < 10 {
        return decimal(n as u64);
    }
    let mut s: String = wide_decimal(n / 10);
    s.push((48u8 + (n % 10) as u8) as char);
    assert(s@ =~= dec(n as nat));
    s
}

pub fn tenths(n: u128) -> (out: String)
    ensures
        out@ == tenths_text(n as nat),
{
    let mut s: String = wide_decimal(n / 10);
    s.append(".");
    push_figure(&mut s, (n % 10) as u64);
    assert(s@ =~= tenths_text(n as nat));
    s
}

pub fn thousandths(n: u128) -> (out: String)
    ensures
        out@ == thousandths_text(n as nat),
{
    let mut s: String = wide_decimal(n / 1000);
    s.append(".");
    push_figure(&mut s, (n / 100 % 10) as u64);
    push_figure(&mut s, (n / 10 % 10) as u64);
    push_figure(&mut s, (n % 10) as u64);
    assert(s@ =~= thousandths_text(n as nat));
    s
}

} // verus!
