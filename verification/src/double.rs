//! Numbers with a binary point: which of those that a machine holds in 64 bits lies nearest
//! to a fraction, and what is read off it.
//!
//! Such a number is a whole number of 53 binary digits, doubled or halved some times. It is
//! told here as a fraction, so that everything about it is arithmetic on whole numbers.

use crate::numbers::{nearest, round_nearest};
use crate::text::cap64;
use vstd::arithmetic::div_mod::{lemma_fundamental_div_mod, lemma_fundamental_div_mod_converse};
use vstd::prelude::*;

verus! {

// ------------------------------------------------------------------------ the numbers

/// Two, `n` times multiplied with itself.
pub open spec fn two_to(n: nat) -> nat
    decreases n,
{
    if n == 0 {
        1
    } else {
        2 * two_to((n - 1) as nat)
    }
}

/// The smallest whole number with 53 binary digits.
pub const LOW: u64 = 0x10_0000_0000_0000;

/// The smallest whole number with more than 53 binary digits.
pub const TOP: u64 = 0x20_0000_0000_0000;

/// How often a number can be halved.
pub const HALVED_MOST: u32 = 1074;

/// How often a number can be doubled.
pub const DOUBLED_MOST: u32 = 971;

/// How often `p / q` is doubled until it has 53 digits before the point, counted from `k`
/// on; no oftener than a number can be halved again.
pub open spec fn doublings(p: nat, q: nat, k: nat) -> nat
    decreases HALVED_MOST - k,
{
    if k >= HALVED_MOST || p >= LOW * q {
        k
    } else {
        doublings(2 * p, q, k + 1)
    }
}

/// How often `p / q` is halved until it has no more than 53 digits before the point,
/// counted from `j` on.
pub open spec fn halvings(p: nat, q: nat, j: nat) -> nat
    decreases DOUBLED_MOST + 1 - j,
{
    if j > DOUBLED_MOST || p < TOP * q {
        j
    } else {
        halvings(p, 2 * q, j + 1)
    }
}

/// The number that lies nearest to `p / q`, as a fraction; of two equally near, the one with
/// the even last digit. There is none where that would be too large.
pub open spec fn machine(p: nat, q: nat) -> Option<(nat, nat)> {
    if p % q == 0 && p / q <= TOP {
        Some((p / q, 1))
    } else if p < TOP * q {
        let k = doublings(p, q, 0);
        Some((nearest(p * two_to(k), q), two_to(k)))
    } else {
        let j = halvings(p, q, 0);
        let m = nearest(p, q * two_to(j));
        if j > DOUBLED_MOST || (j == DOUBLED_MOST && m == TOP) {
            None
        } else {
            Some((m * two_to(j), 1))
        }
    }
}

/// What comes of dividing one number by another.
pub open spec fn over(x: (nat, nat), y: (nat, nat)) -> (nat, nat) {
    machine(x.0 * y.1, x.1 * y.0)->0
}

/// What comes of multiplying a number.
pub open spec fn times(x: (nat, nat), n: nat) -> (nat, nat) {
    machine(x.0 * n, x.1)->0
}

/// The number that lies nearest to a whole one.
pub open spec fn whole(n: nat) -> (nat, nat) {
    machine(n, 1)->0
}

/// A number in parts of a given size, rounded to the nearest whole one.
pub open spec fn in_parts(x: (nat, nat), scale: nat) -> nat {
    nearest(x.0 * scale, x.1)
}

// ------------------------------------------------------------------------ lemmas

/// Dividing by a whole number.
pub proof fn lemma_over_whole(x: (nat, nat), y: (nat, nat))
    requires
        y.1 == 1,
    ensures
        over(x, y) == machine(x.0, x.1 * y.0)->0,
        x.1 == 1 ==> over(x, y) == machine(x.0, y.0)->0,
{
    assert(x.0 * y.1 == x.0) by (nonlinear_arith)
        requires
            y.1 == 1,
    ;
    assert(x.1 == 1 ==> x.1 * y.0 == y.0) by (nonlinear_arith);
}

pub proof fn lemma_two_add(a: nat, b: nat)
    ensures
        two_to(a + b) == two_to(a) * two_to(b),
        two_to(a) > 0,
    decreases a,
{
    if a > 0 {
        lemma_two_add((a - 1) as nat, b);
        assert(two_to(a + b) == 2 * two_to((a + b - 1) as nat));
        assert(two_to(a) * two_to(b) == 2 * (two_to((a - 1) as nat) * two_to(b)))
            by (nonlinear_arith)
            requires
                two_to(a) == 2 * two_to((a - 1) as nat),
        ;
    } else {
        assert(two_to(0) * two_to(b) == two_to(b)) by (nonlinear_arith)
            requires
                two_to(0) == 1,
        ;
    }
}

pub proof fn lemma_two_grows(a: nat, b: nat)
    requires
        a <= b,
    ensures
        0 < two_to(a) <= two_to(b),
    decreases b,
{
    if a < b {
        lemma_two_grows(a, (b - 1) as nat);
    } else {
        lemma_two_add(a, 0);
    }
}

proof fn lemma_doublings_from(p: nat, q: nat, i: nat, k: nat)
    requires
        i <= k <= HALVED_MOST,
        k == HALVED_MOST || p * two_to(k) >= LOW * q,
        k == 0 || p * two_to((k - 1) as nat) < LOW * q,
    ensures
        doublings(p * two_to(i), q, i) == k,
    decreases k - i,
{
    if i < k {
        lemma_two_grows(i, (k - 1) as nat);
        assert(p * two_to(i) <= p * two_to((k - 1) as nat)) by (nonlinear_arith)
            requires
                two_to(i) <= two_to((k - 1) as nat),
        ;
        assert(2 * (p * two_to(i)) == p * two_to(i + 1)) by (nonlinear_arith)
            requires
                two_to(i + 1) == 2 * two_to(i),
        ;
        lemma_doublings_from(p, q, i + 1, k);
    }
}

/// How often a fraction is doubled, told by what that comes to.
pub proof fn lemma_doublings_are(p: nat, q: nat, k: nat)
    requires
        k <= HALVED_MOST,
        k == HALVED_MOST || p * two_to(k) >= LOW * q,
        k == 0 || p * two_to((k - 1) as nat) < LOW * q,
    ensures
        doublings(p, q, 0) == k,
{
    lemma_doublings_from(p, q, 0, k);
    assert(p * two_to(0) == p) by (nonlinear_arith)
        requires
            two_to(0) == 1,
    ;
}

proof fn lemma_halvings_from(p: nat, q: nat, i: nat, j: nat)
    requires
        i <= j <= DOUBLED_MOST + 1,
        j == DOUBLED_MOST + 1 || p < TOP * (q * two_to(j)),
        j == 0 || p >= TOP * (q * two_to((j - 1) as nat)),
    ensures
        halvings(p, q * two_to(i), i) == j,
    decreases j - i,
{
    if i < j {
        lemma_two_grows(i, (j - 1) as nat);
        assert(TOP * (q * two_to(i)) <= TOP * (q * two_to((j - 1) as nat))) by (nonlinear_arith)
            requires
                two_to(i) <= two_to((j - 1) as nat),
        ;
        assert(2 * (q * two_to(i)) == q * two_to(i + 1)) by (nonlinear_arith)
            requires
                two_to(i + 1) == 2 * two_to(i),
        ;
        lemma_halvings_from(p, q, i + 1, j);
    }
}

/// How often a fraction is halved, told by what that comes to.
pub proof fn lemma_halvings_are(p: nat, q: nat, j: nat)
    requires
        j <= DOUBLED_MOST + 1,
        j == DOUBLED_MOST + 1 || p < TOP * (q * two_to(j)),
        j == 0 || p >= TOP * (q * two_to((j - 1) as nat)),
    ensures
        halvings(p, q, 0) == j,
{
    lemma_halvings_from(p, q, 0, j);
    assert(q * two_to(0) == q) by (nonlinear_arith)
        requires
            two_to(0) == 1,
    ;
}

/// A fraction has the same nearest whole number however it is written.
pub proof fn lemma_nearest_scaled(a: nat, b: nat, c: nat)
    requires
        b > 0,
        c > 0,
    ensures
        nearest(a * c, b * c) == nearest(a, b),
{
    let q = a / b;
    let r = a % b;
    lemma_fundamental_div_mod(a as int, b as int);
    assert(a * c == q * (b * c) + r * c) by (nonlinear_arith)
        requires
            a == b * q + r,
    ;
    assert(0 <= r * c < b * c) by (nonlinear_arith)
        requires
            0 <= r < b,
            c > 0,
    ;
    assert(b * c != 0) by (nonlinear_arith)
        requires
            b > 0,
            c > 0,
    ;
    lemma_fundamental_div_mod_converse((a * c) as int, (b * c) as int, q as int, (r * c) as int);
    assert((2 * r < b) == (2 * (r * c) < b * c)) by (nonlinear_arith)
        requires
            c > 0,
    ;
    assert((2 * r == b) == (2 * (r * c) == b * c)) by (nonlinear_arith)
        requires
            c > 0,
    ;
}

pub proof fn lemma_nearest_most(a: nat, b: nat, c: nat)
    requires
        b > 0,
        a <= c * b,
    ensures
        nearest(a, b) <= c,
{
    let q = a / b;
    let r = a % b;
    lemma_fundamental_div_mod(a as int, b as int);
    if q >= c {
        assert(r == 0 && q == c) by (nonlinear_arith)
            requires
                a == b * q + r,
                a <= c * b,
                q >= c,
                b > 0,
                r >= 0,
        ;
    }
}

proof fn lemma_two_small()
    ensures
        two_to(10) == 1024,
        two_to(52) == LOW,
        two_to(53) == TOP,
        two_to(64) == 0x1_0000_0000_0000_0000,
        two_to(127) == 0x8000_0000_0000_0000_0000_0000_0000_0000,
        two_to(128) == 0x1_0000_0000_0000_0000 * 0x1_0000_0000_0000_0000,
{
    reveal_with_fuel(two_to, 66);
    lemma_two_add(64, 64);
    assert(two_to(128) == 2 * two_to(127));
    assert(two_to(64) * two_to(64) == 0x1_0000_0000_0000_0000 * 0x1_0000_0000_0000_0000)
        by (nonlinear_arith)
        requires
            two_to(64) == 0x1_0000_0000_0000_0000,
    ;
}

// ------------------------------------------------------------------------ small fractions

/// A number: its digits as a whole number, doubled `shift` times or halved as often as it
/// is below zero.
#[derive(Debug, Clone, Copy)]
pub struct Binary {
    pub digits: u64,
    pub shift: i32,
}

impl Binary {
    /// The number as a fraction.
    pub open spec fn view(self) -> (nat, nat) {
        if self.shift >= 0 {
            (self.digits as nat * two_to(self.shift as nat), 1)
        } else {
            (self.digits as nat, two_to((-self.shift) as nat))
        }
    }
}

/// The number that lies nearest to a fraction.
pub fn near(p: u128, q: u128) -> (out: Binary)
    requires
        0 < q <= 0x400_0000_0000_0000_0000,
        p <= 0x400_0000_0000_0000_0000,
    ensures
        machine(p as nat, q as nat) == Some(out.view()),
        out.digits <= TOP,
        -127 < out.shift < 64,
        p <= 0x1_0000_0000_0000_0000 ==> out.shift <= 12,
        p < 0x400_0000_0000_0000_0000 ==> out.shift <= 21,
{
    let low: u128 = LOW as u128;
    let top: u128 = TOP as u128;
    if p % q == 0 && p / q <= top {
        let m: u64 = (p / q) as u64;
        assert(m * two_to(0) == m) by (nonlinear_arith)
            requires
                two_to(0) == 1,
        ;
        return Binary { digits: m, shift: 0 };
    }
    assert(low * q <= 0x10_0000_0000_0000 * 0x400_0000_0000_0000_0000) by (nonlinear_arith)
        requires
            low == 0x10_0000_0000_0000,
            q <= 0x400_0000_0000_0000_0000,
    ;
    assert(top * q <= 0x20_0000_0000_0000 * 0x400_0000_0000_0000_0000) by (nonlinear_arith)
        requires
            top == 0x20_0000_0000_0000,
            q <= 0x400_0000_0000_0000_0000,
    ;
    if p < top * q {
        let mut a: u128 = p;
        let mut k: u32 = 0;
        assert(p != 0) by {
            if p == 0 {
                assert(0nat % q as nat == 0 && 0nat / q as nat == 0) by (nonlinear_arith)
                    requires
                        q > 0,
                ;
            }
        }
        assert(p * two_to(0) == p) by (nonlinear_arith)
            requires
                two_to(0) == 1,
        ;
        while a < low * q
            invariant
                low == LOW,
                top == TOP,
                0 < p,
                0 < q,
                low * q <= 0x10_0000_0000_0000 * 0x400_0000_0000_0000_0000,
                top * q == 2 * (low * q),
                a < top * q,
                a == p * two_to(k as nat),
                k < 127,
                k == 0 || p * two_to((k - 1) as nat) < low * q,
            decreases top * q - a,
        {
            proof {
                lemma_two_add(1, k as nat);
                lemma_two_add(k as nat, 1);
                reveal_with_fuel(two_to, 2);
                assert(p * two_to((k + 1) as nat) == 2 * (p * two_to(k as nat))) by (nonlinear_arith)
                    requires
                        two_to((k + 1) as nat) == 2 * two_to(k as nat),
                ;
                if k == 126 {
                    lemma_two_small();
                    assert(p * two_to(127) >= two_to(127)) by (nonlinear_arith)
                        requires
                            p >= 1,
                    ;
                }
                assert(a > 0) by (nonlinear_arith)
                    requires
                        a == p * two_to(k as nat),
                        p > 0,
                        two_to(k as nat) > 0,
                ;
            }
            a = 2 * a;
            k += 1;
        }
        proof {
            lemma_doublings_are(p as nat, q as nat, k as nat);
            lemma_nearest_most(a as nat, q as nat, TOP as nat);
        }
        let m: u128 = round_nearest(a, q);
        if k == 0 {
            assert(two_to(0) == 1);
            assert(m * two_to(0) == m) by (nonlinear_arith)
                requires
                    two_to(0) == 1,
            ;
        }
        Binary { digits: m as u64, shift: -(k as i32) }
    } else {
        let mut b: u128 = q;
        let mut j: u32 = 0;
        assert(q * two_to(0) == q) by (nonlinear_arith)
            requires
                two_to(0) == 1,
        ;
        while p >= top * b
            invariant
                top == TOP,
                0 < q,
                0 < b,
                p <= 0x400_0000_0000_0000_0000,
                b == q * two_to(j as nat),
                b <= 0x400_0000_0000_0000_0000,
                top * b <= 0x20_0000_0000_0000 * 0x400_0000_0000_0000_0000,
                j < 64,
                j == 0 || p >= top * (q * two_to((j - 1) as nat)),
            decreases p - b,
        {
            proof {
                lemma_two_add(1, j as nat);
                reveal_with_fuel(two_to, 2);
                assert(q * two_to((j + 1) as nat) == 2 * (q * two_to(j as nat))) by (nonlinear_arith)
                    requires
                        two_to((j + 1) as nat) == 2 * two_to(j as nat),
                ;
                assert(2 * b <= p && top * (2 * b) <= 2 * p) by (nonlinear_arith)
                    requires
                        p >= top * b,
                        top >= 2,
                        b > 0,
                ;
                if j == 63 {
                    lemma_two_small();
                    assert(q * two_to(64) >= two_to(64)) by (nonlinear_arith)
                        requires
                            q >= 1,
                    ;
                    assert(p >= top * 0x8000_0000_0000_0000) by (nonlinear_arith)
                        requires
                            p >= top * b,
                            2 * b >= 0x1_0000_0000_0000_0000,
                    ;
                }
            }
            b = 2 * b;
            j += 1;
        }
        proof {
            lemma_halvings_are(p as nat, q as nat, j as nat);
            if j > 21 {
                lemma_two_grows(21, (j - 1) as nat);
                reveal_with_fuel(two_to, 22);
                assert(top * (q * two_to((j - 1) as nat)) >= 0x20_0000_0000_0000 * 0x20_0000)
                    by (nonlinear_arith)
                    requires
                        top == 0x20_0000_0000_0000,
                        q >= 1,
                        two_to((j - 1) as nat) >= 0x20_0000,
                ;
            }
            if j > 12 {
                lemma_two_grows(12, (j - 1) as nat);
                reveal_with_fuel(two_to, 13);
                assert(top * (q * two_to((j - 1) as nat)) >= 0x20_0000_0000_0000 * 4096)
                    by (nonlinear_arith)
                    requires
                        top == 0x20_0000_0000_0000,
                        q >= 1,
                        two_to((j - 1) as nat) >= 4096,
                ;
            }
            lemma_nearest_most(p as nat, b as nat, TOP as nat);
        }
        let m: u128 = round_nearest(p, b);
        Binary { digits: m as u64, shift: j as i32 }
    }
}

pub proof fn lemma_nearest_none(a: nat, b: nat)
    requires
        2 * a < b,
    ensures
        nearest(a, b) == 0,
{
    lemma_fundamental_div_mod_converse(a as int, b as int, 0, a as int);
}

fn power(k: u32) -> (out: u128)
    requires
        k < 127,
    ensures
        out == two_to(k as nat),
        0 < out <= 0x4000_0000_0000_0000_0000_0000_0000_0000,
{
    let mut i: u32 = 0;
    let mut a: u128 = 1;
    while i < k
        invariant
            i <= k < 127,
            a == two_to(i as nat),
            a > 0,
        decreases k - i,
    {
        proof {
            lemma_two_small();
            lemma_two_grows((i + 1) as nat, 127);
        }
        a = 2 * a;
        i += 1;
    }
    proof {
        lemma_two_small();
        lemma_two_grows((k + 1) as nat, 127);
    }
    a
}

/// A number in parts of a given size, rounded to the nearest whole one.
pub fn parts(x: Binary, scale: u128) -> (out: u128)
    requires
        x.digits <= TOP,
        -2000 < x.shift < 64,
        0 < scale <= 1000,
    ensures
        out == in_parts(x.view(), scale as nat),
{
    let d: u128 = x.digits as u128;
    if x.shift <= -127 {
        proof {
            lemma_two_small();
            lemma_two_grows(127, (-x.shift) as nat);
            let den = two_to((-x.shift) as nat);
            assert(d * scale <= 0x20_0000_0000_0000 * 1000) by (nonlinear_arith)
                requires
                    d <= 0x20_0000_0000_0000,
                    scale <= 1000,
            ;
            lemma_nearest_none((d * scale) as nat, den);
        }
        return 0;
    }
    if x.shift >= 0 {
        let a: u128 = power(x.shift as u32);
        proof {
            lemma_two_small();
            lemma_two_grows(x.shift as nat, 63);
            assert(two_to(64) == 2 * two_to(63));
            assert(d * a <= 0x20_0000_0000_0000 * 0x8000_0000_0000_0000) by (nonlinear_arith)
                requires
                    d <= 0x20_0000_0000_0000,
                    a <= 0x8000_0000_0000_0000,
            ;
            assert((d * a) * scale <= 0x20_0000_0000_0000 * 0x8000_0000_0000_0000 * 1000)
                by (nonlinear_arith)
                requires
                    d * a <= 0x20_0000_0000_0000 * 0x8000_0000_0000_0000,
                    scale <= 1000,
            ;
        }
        round_nearest(d * a * scale, 1)
    } else {
        let b: u128 = power((-x.shift) as u32);
        assert(d * scale <= 0x20_0000_0000_0000 * 1000) by (nonlinear_arith)
            requires
                d <= 0x20_0000_0000_0000,
                scale <= 1000,
        ;
        round_nearest(d * scale, b)
    }
}

proof fn lemma_whole_bounds(n: nat)
    requires
        TOP < n < 0x400_0000_0000_0000_0000,
    ensures
        whole(n).0 > 0,
        n < 0x1_0000_0000_0000_0000 ==> whole(n).0 <= 0x1_0000_0000_0000_0000,
{
    assert(n % 1 == 0 && n / 1 == n);
    let j = halvings(n, 1, 0);
    lemma_halved(n, 1, 0);
    lemma_two_add(j, 0);
    let b = 1 * two_to(j);
    let m = nearest(n, b);
    assert(b == two_to(j));
    assert(n < TOP * b) by {
        if j > DOUBLED_MOST {
            lemma_two_grows(64, j);
            lemma_two_small();
        }
    }
    assert(j > 0) by {
        if j == 0 {
            assert(two_to(0) == 1);
        }
    }
    lemma_nearest_most(n, b, TOP as nat);
    let h = two_to((j - 1) as nat);
    assert(n >= TOP * h);
    assert(m >= 1) by {
        lemma_fundamental_div_mod(n as int, b as int);
        assert(n / b >= 1) by (nonlinear_arith)
            requires
                n >= TOP * h,
                b == 2 * h,
                TOP >= 2,
                h > 0,
                n == b * (n / b) + n % b,
                0 <= n % b < b,
        ;
    }
    assert(m * b > 0) by (nonlinear_arith)
        requires
            m >= 1,
            b > 0,
    ;
    assert(!(j == DOUBLED_MOST && m == TOP) && j <= DOUBLED_MOST) by {
        if j >= 64 {
            lemma_two_grows(63, (j - 1) as nat);
            lemma_two_small();
            assert(two_to(64) == 2 * two_to(63));
            assert(TOP * h >= TOP * 0x8000_0000_0000_0000) by (nonlinear_arith)
                requires
                    h >= 0x8000_0000_0000_0000,
            ;
        }
    }
    if n < 0x1_0000_0000_0000_0000 {
        if j > 11 {
            lemma_two_grows(11, (j - 1) as nat);
            reveal_with_fuel(two_to, 12);
        } else {
            lemma_two_grows(j, 11);
            reveal_with_fuel(two_to, 12);
            assert(m * b <= 0x20_0000_0000_0000 * 2048) by (nonlinear_arith)
                requires
                    m <= 0x20_0000_0000_0000,
                    b <= 2048,
            ;
        }
    }
}

/// What halving comes to: no more than is needed.
proof fn lemma_halved(p: nat, q: nat, i: nat)
    requires
        i <= DOUBLED_MOST + 1,
        i == 0 || p >= TOP * (q * two_to((i - 1) as nat)),
    ensures
        ({
            let j = halvings(p, q * two_to(i), i);
            &&& i <= j <= DOUBLED_MOST + 1
            &&& j == DOUBLED_MOST + 1 || p < TOP * (q * two_to(j))
            &&& j == 0 || p >= TOP * (q * two_to((j - 1) as nat))
        }),
        i == 0 ==> halvings(p, q * two_to(i), i) == halvings(p, q, 0),
    decreases DOUBLED_MOST + 1 - i,
{
    if i == 0 {
        assert(q * two_to(0) == q) by (nonlinear_arith)
            requires
                two_to(0) == 1,
        ;
    }
    if i <= DOUBLED_MOST && p >= TOP * (q * two_to(i)) {
        assert(2 * (q * two_to(i)) == q * two_to(i + 1)) by (nonlinear_arith)
            requires
                two_to(i + 1) == 2 * two_to(i),
        ;
        lemma_halved(p, q, i + 1);
    }
}

/// The number that lies nearest to a whole one, which is a whole one as well.
pub fn near_whole(n: u128) -> (out: u128)
    requires
        n < 0x400_0000_0000_0000_0000,
    ensures
        whole(n as nat) == (out as nat, 1nat),
        out <= 0x400_0000_0000_0000_0000,
        n < 0x1_0000_0000_0000_0000 ==> out <= 0x1_0000_0000_0000_0000,
        n > 0 ==> out > 0,
{
    if n <= TOP as u128 {
        assert(n as nat % 1 == 0 && n as nat / 1 == n);
        return n;
    }
    let x: Binary = near(n, 1);
    proof {
        assert(n as nat % 1 == 0 && n as nat / 1 == n);
        if x.shift < 0 {
            lemma_two_grows(1, (-x.shift) as nat);
            reveal_with_fuel(two_to, 2);
        }
        let j = halvings(n as nat, 1, 0);
        let m = nearest(n as nat, 1 * two_to(j));
        assert(machine(n as nat, 1) == Some((m * two_to(j), 1nat)));
    }
    let a: u128 = power(x.shift as u32);
    proof {
        lemma_two_grows(x.shift as nat, 21);
        reveal_with_fuel(two_to, 22);
        assert(x.digits * a <= 0x20_0000_0000_0000 * 0x20_0000) by (nonlinear_arith)
            requires
                x.digits <= 0x20_0000_0000_0000,
                a <= 0x20_0000,
        ;
        lemma_whole_bounds(n as nat);
    }
    x.digits as u128 * a
}

/// The whole part of a number.
pub fn whole_part_of(x: Binary) -> (out: u128)
    requires
        x.digits <= TOP,
        -2000 < x.shift < 64,
    ensures
        out == x.view().0 / x.view().1,
{
    if x.shift >= 0 {
        let a: u128 = power(x.shift as u32);
        proof {
            lemma_two_small();
            lemma_two_grows(x.shift as nat, 63);
            assert(two_to(64) == 2 * two_to(63));
            assert(x.digits * a <= 0x20_0000_0000_0000 * 0x8000_0000_0000_0000) by (nonlinear_arith)
                requires
                    x.digits <= 0x20_0000_0000_0000,
                    a <= 0x8000_0000_0000_0000,
            ;
        }
        assert(x.view().1 == 1);
        assert(x.view().0 / 1 == x.view().0);
        return x.digits as u128 * a;
    }
    if x.shift <= -64 {
        proof {
            lemma_two_small();
            lemma_two_grows(64, (-x.shift) as nat);
            lemma_fundamental_div_mod_converse(
                x.digits as int,
                two_to((-x.shift) as nat) as int,
                0,
                x.digits as int,
            );
        }
        return 0;
    }
    let b: u128 = power((-x.shift) as u32);
    x.digits as u128 / b
}

/// The whole part of a number, cut off at what 64 bits hold.
pub fn whole_size(x: Binary) -> (out: u64)
    requires
        x.digits <= TOP,
        -2000 < x.shift,
    ensures
        out == cap64(x.view().0 / x.view().1),
{
    if x.shift < 64 {
        let w: u128 = whole_part_of(x);
        return if w > u64::MAX as u128 {
            u64::MAX
        } else {
            w as u64
        };
    }
    proof {
        lemma_two_small();
        lemma_two_grows(64, x.shift as nat);
        let t = two_to(x.shift as nat);
        let d = x.digits as nat;
        assert(d == 0 ==> d * t == 0) by (nonlinear_arith);
        assert(d >= 1 ==> d * t >= t) by (nonlinear_arith);
        assert(x.view().0 / 1 == x.view().0);
    }
    if x.digits == 0 {
        0
    } else {
        u64::MAX
    }
}

/// How the powers of two of two numbers compare.
proof fn lemma_cross(a: int, b: int)
    requires
        a >= b,
    ensures
        ({
            let pa = two_to(if a > 0 { a as nat } else { 0 });
            let na = two_to(if a < 0 { (-a) as nat } else { 0 });
            let pb = two_to(if b > 0 { b as nat } else { 0 });
            let nb = two_to(if b < 0 { (-b) as nat } else { 0 });
            &&& pa * nb == two_to((a - b) as nat) * (pb * na)
            &&& pb * na > 0
        }),
{
    let ua = if a > 0 {
        a as nat
    } else {
        0
    };
    let da = if a < 0 {
        (-a) as nat
    } else {
        0
    };
    let ub = if b > 0 {
        b as nat
    } else {
        0
    };
    let db = if b < 0 {
        (-b) as nat
    } else {
        0
    };
    lemma_two_add(ua, db);
    lemma_two_add(ub, da);
    lemma_two_add((a - b) as nat, ub + da);
    assert(ua + db == (a - b) + (ub + da));
    assert(two_to(ub + da) > 0) by {
        lemma_two_add(ub + da, 0);
    }
}

/// Whether a number is smaller than another.
pub fn size_less(x: Binary, y: Binary) -> (out: bool)
    requires
        x.digits <= TOP,
        y.digits <= TOP,
        -2000 < x.shift < 2000,
        -2000 < y.shift < 2000,
    ensures
        out == (x.view().0 * y.view().1 < y.view().0 * x.view().1),
{
    let upper: bool = x.shift >= y.shift;
    let by: i32 = if upper {
        x.shift - y.shift
    } else {
        y.shift - x.shift
    };
    let a: u64 = if upper {
        x.digits
    } else {
        y.digits
    };
    let b: u64 = if upper {
        y.digits
    } else {
        x.digits
    };
    let ghost t = two_to(by as nat);
    proof {
        let s = if upper {
            x.shift as int
        } else {
            y.shift as int
        };
        let r = if upper {
            y.shift as int
        } else {
            x.shift as int
        };
        lemma_cross(s, r);
        let ps = two_to(if s > 0 { s as nat } else { 0 });
        let ns = two_to(if s < 0 { (-s) as nat } else { 0 });
        let pr = two_to(if r > 0 { r as nat } else { 0 });
        let nr = two_to(if r < 0 { (-r) as nat } else { 0 });
        let u = (if upper { x.view() } else { y.view() });
        let v = (if upper { y.view() } else { x.view() });
        assert(two_to(0) == 1);
        assert(a as nat * 1 == a && b as nat * 1 == b);
        assert(u == (a as nat * ps, ns));
        assert(v == (b as nat * pr, nr));
        let m = pr * ns;
        let c = a as nat;
        let d = b as nat;
        assert(u.0 * v.1 == (c * t) * m) by (nonlinear_arith)
            requires
                u.0 == c * ps,
                v.1 == nr,
                ps * nr == t * m,
        ;
        assert(v.0 * u.1 == d * m) by (nonlinear_arith)
            requires
                v.0 == d * pr,
                u.1 == ns,
                m == pr * ns,
        ;
        assert((u.0 * v.1 < v.0 * u.1) == (c * t < d)) by (nonlinear_arith)
            requires
                u.0 * v.1 == (c * t) * m,
                v.0 * u.1 == d * m,
                m > 0,
        ;
        assert((v.0 * u.1 < u.0 * v.1) == (d < c * t)) by (nonlinear_arith)
            requires
                u.0 * v.1 == (c * t) * m,
                v.0 * u.1 == d * m,
                m > 0,
        ;
    }
    if by >= 64 {
        proof {
            lemma_two_small();
            lemma_two_grows(64, by as nat);
            assert(a as nat == 0 ==> a as nat * t == 0) by (nonlinear_arith);
            assert(a as nat >= 1 ==> a as nat * t >= t) by (nonlinear_arith);
        }
        return if upper {
            a == 0 && b > 0
        } else {
            a > 0
        };
    }
    let s: u128 = power(by as u32);
    proof {
        lemma_two_small();
        lemma_two_grows(by as nat, 63);
        assert(two_to(64) == 2 * two_to(63));
        assert(a * s <= 0x20_0000_0000_0000 * 0x8000_0000_0000_0000) by (nonlinear_arith)
            requires
                a <= 0x20_0000_0000_0000,
                s <= 0x8000_0000_0000_0000,
        ;
    }
    let c: u128 = a as u128 * s;
    if upper {
        c < b as u128
    } else {
        (b as u128) < c
    }
}

/// Whether two numbers are the same.
pub fn same_size(x: Binary, y: Binary) -> (out: bool)
    requires
        x.digits <= TOP,
        y.digits <= TOP,
        -2000 < x.shift < 2000,
        -2000 < y.shift < 2000,
    ensures
        out == (x.view().0 * y.view().1 == y.view().0 * x.view().1),
{
    !size_less(x, y) && !size_less(y, x)
}

/// Whether a number is a whole one.
pub fn is_integral(x: Binary) -> (out: bool)
    requires
        x.digits <= TOP,
        -2000 < x.shift,
    ensures
        out == (x.view().0 % x.view().1 == 0),
{
    if x.shift >= 0 {
        assert(x.view().0 % 1 == 0);
        return true;
    }
    if x.shift <= -64 {
        proof {
            lemma_two_small();
            lemma_two_grows(64, (-x.shift) as nat);
            lemma_fundamental_div_mod_converse(
                x.digits as int,
                two_to((-x.shift) as nat) as int,
                0,
                x.digits as int,
            );
        }
        return x.digits == 0;
    }
    let b: u128 = power((-x.shift) as u32);
    x.digits as u128 % b == 0
}

fn deep_up(p0: u128, c: u128, s: u32) -> (out: Binary)
    requires
        0 < c <= 1_000_000,
        50 < s < 127,
        0 < p0 < LOW * c,
        p0 as nat % (two_to(s as nat) * c as nat) != 0,
        p0 < TOP * (two_to(s as nat) * c as nat),
    ensures
        machine(p0 as nat, two_to(s as nat) * c as nat) == Some(out.view()),
        out.digits <= TOP,
        -2000 < out.shift < 64,
{
    let ghost over = c as nat;
    let ghost q = two_to(s as nat) * over;
    let low: u128 = LOW as u128;
    assert(low * c <= 0x10_0000_0000_0000 * 1_000_000) by (nonlinear_arith)
        requires
            low == 0x10_0000_0000_0000,
            c <= 1_000_000,
    ;
    let mut a: u128 = p0;
    let mut k: u32 = 0;
    assert(p0 * two_to(0) == p0) by (nonlinear_arith)
        requires
            two_to(0) == 1,
    ;
    while a < low * c
        invariant
            low == LOW,
            0 < p0,
            low * c <= 0x10_0000_0000_0000 * 1_000_000,
            0 < a < 2 * (low * c),
            a == p0 * two_to(k as nat),
            k < 100,
            k == 0 || p0 * two_to((k - 1) as nat) < low * c,
        decreases 2 * (low * c) - a,
    {
        proof {
            assert(p0 * two_to((k + 1) as nat) == 2 * (p0 * two_to(k as nat))) by (nonlinear_arith)
                requires
                    two_to((k + 1) as nat) == 2 * two_to(k as nat),
            ;
            if k == 99 {
                lemma_two_small();
                lemma_two_grows(64, 99);
                lemma_two_add(64, 35);
                reveal_with_fuel(two_to, 36);
                assert(a >= two_to(99)) by (nonlinear_arith)
                    requires
                        a == p0 * two_to(99),
                        p0 >= 1,
                ;
                assert(two_to(99) >= 0x1_0000_0000_0000_0000 * 0x8_0000_0000) by (nonlinear_arith)
                    requires
                        two_to(99) == two_to(64) * two_to(35),
                        two_to(64) == 0x1_0000_0000_0000_0000,
                        two_to(35) == 0x8_0000_0000,
                ;
            }
        }
        a = 2 * a;
        k += 1;
    }
    proof {
        let t = two_to(s as nat);
        lemma_two_add(s as nat, k as nat);
        assert(p0 * two_to((s + k) as nat) == a * t) by (nonlinear_arith)
            requires
                a == p0 * two_to(k as nat),
                two_to((s + k) as nat) == t * two_to(k as nat),
        ;
        assert(a * t >= LOW * q) by (nonlinear_arith)
            requires
                a >= LOW * over,
                q == t * over,
        ;
        if k > 0 {
            lemma_two_add(s as nat, (k - 1) as nat);
            let h = two_to((k - 1) as nat);
            assert(p0 * two_to((s + k - 1) as nat) < LOW * q) by (nonlinear_arith)
                requires
                    two_to((s + k - 1) as nat) == t * h,
                    p0 * h < LOW * over,
                    q == t * over,
                    t > 0,
            ;
        }
        lemma_doublings_are(p0 as nat, q, (s + k) as nat);
        assert(a * t == (p0 * two_to((s + k) as nat)) as nat);
        assert(over * t == q) by (nonlinear_arith)
            requires
                q == t * over,
        ;
        lemma_nearest_scaled(a as nat, over, t);
        assert(a <= TOP * over);
        lemma_nearest_most(a as nat, over, TOP as nat);
    }
    let m: u128 = round_nearest(a, c);
    Binary { digits: m as u64, shift: -((s + k) as i32) }
}

fn deep_down(p0: u128, c: u128, s: u32) -> (out: Binary)
    requires
        0 < c <= 1_000_000,
        50 < s < 127,
        LOW * c <= p0 <= 0x20_0000_0000_0000 * 16,
        p0 as nat % (two_to(s as nat) * c as nat) != 0,
        p0 < TOP * (two_to(s as nat) * c as nat),
    ensures
        machine(p0 as nat, two_to(s as nat) * c as nat) == Some(out.view()),
        out.digits <= TOP,
        -2000 < out.shift < 64,
{
    let ghost over = c as nat;
    let ghost q = two_to(s as nat) * over;
    let low: u128 = LOW as u128;
    assert(low * c <= 0x10_0000_0000_0000 * 1_000_000) by (nonlinear_arith)
        requires
            low == 0x10_0000_0000_0000,
            c <= 1_000_000,
    ;
    let mut g: u128 = c;
    let mut r: u32 = 0;
    assert(c * two_to(0) == c) by (nonlinear_arith)
        requires
            two_to(0) == 1,
    ;
    assert(low * g == low * c);
    while p0 >= low * 2 * g
        invariant
            low == LOW,
            0 < g,
            c > 0,
            p0 <= 0x20_0000_0000_0000 * 16,
            g == c * two_to(r as nat),
            low * g <= p0,
            r < 40,
            g <= p0,
        decreases p0 - g,
    {
        proof {
            assert(c * two_to((r + 1) as nat) == 2 * (c * two_to(r as nat))) by (nonlinear_arith)
                requires
                    two_to((r + 1) as nat) == 2 * two_to(r as nat),
            ;
            assert(low * (2 * g) == low * 2 * g && 2 * g <= low * 2 * g) by (nonlinear_arith)
                requires
                    low >= 1,
            ;
            if r == 39 {
                reveal_with_fuel(two_to, 41);
                assert(g >= two_to(39)) by (nonlinear_arith)
                    requires
                        g == c * two_to(39),
                        c >= 1,
                ;
            }
        }
        g = 2 * g;
        r += 1;
    }
    proof {
        let k = (s - r) as nat;
        lemma_two_add(r as nat, k);
        lemma_two_add(k, 0);
        let t = two_to(k);
        let u = two_to(r as nat);
        assert(p0 * t >= LOW * q) by (nonlinear_arith)
            requires
                p0 >= LOW * g,
                g == over * u,
                q == (u * t) * over,
        ;
        lemma_two_add(1, (k - 1) as nat);
        reveal_with_fuel(two_to, 2);
        let h = two_to((k - 1) as nat);
        assert(p0 * h < LOW * q) by (nonlinear_arith)
            requires
                p0 < LOW * 2 * g,
                g == over * u,
                q == (u * t) * over,
                t == 2 * h,
                t > 0,
        ;
        lemma_doublings_are(p0 as nat, q, k);
        assert(g * t == q) by (nonlinear_arith)
            requires
                g == over * u,
                q == (u * t) * over,
        ;
        lemma_nearest_scaled(p0 as nat, g as nat, t);
        assert(p0 <= TOP * g);
        lemma_nearest_most(p0 as nat, g as nat, TOP as nat);
    }
    let m: u128 = round_nearest(p0, g);
    Binary { digits: m as u64, shift: -((s - r) as i32) }
}

/// A number multiplied and divided at once: the number that lies nearest to what comes out.
pub fn scaled(x: Binary, by: u64, over: u64) -> (out: Binary)
    requires
        x.digits <= TOP,
        -127 < x.shift <= 12,
        0 < by <= 16,
        0 < over <= 1_000_000,
    ensures
        machine(x.view().0 * by as nat, x.view().1 * over as nat) == Some(out.view()),
        out.digits <= TOP,
        -2000 < out.shift < 64,
{
    assert(x.digits * by <= 0x20_0000_0000_0000 * 16) by (nonlinear_arith)
        requires
            x.digits <= 0x20_0000_0000_0000,
            by <= 16,
    ;
    let p0: u128 = x.digits as u128 * by as u128;
    let c: u128 = over as u128;
    if x.shift >= 0 {
        let a: u128 = power(x.shift as u32);
        proof {
            lemma_two_grows(x.shift as nat, 12);
            reveal_with_fuel(two_to, 13);
            assert(x.digits * a <= 0x20_0000_0000_0000 * 4096) by (nonlinear_arith)
                requires
                    x.digits <= 0x20_0000_0000_0000,
                    a <= 4096,
            ;
            assert((x.digits * a) * by <= 0x20_0000_0000_0000 * 4096 * 16) by (nonlinear_arith)
                requires
                    x.digits * a <= 0x20_0000_0000_0000 * 4096,
                    by <= 16,
            ;
        }
        assert(x.view().1 * over as nat == c as nat) by (nonlinear_arith)
            requires
                x.view().1 == 1,
                c == over,
        ;
        return near(x.digits as u128 * a * by as u128, c);
    }
    let s: u32 = (-x.shift) as u32;
    let b: u128 = power(s);
    let ghost q = two_to(s as nat) * c as nat;
    if s <= 50 {
        proof {
            lemma_two_small();
            lemma_two_grows(s as nat, 52);
            assert(b * c <= 0x10_0000_0000_0000 * 1_000_000) by (nonlinear_arith)
                requires
                    b <= 0x10_0000_0000_0000,
                    c <= 1_000_000,
            ;
            assert(b * c > 0) by (nonlinear_arith)
                requires
                    b > 0,
                    c > 0,
            ;
        }
        return near(p0, b * c);
    }
    proof {
        lemma_two_small();
        lemma_two_grows(51, s as nat);
        assert(two_to(52) == 2 * two_to(51));
        assert(q >= two_to(s as nat)) by (nonlinear_arith)
            requires
                q == two_to(s as nat) * c as nat,
                c >= 1,
        ;
        assert(TOP * q > p0) by (nonlinear_arith)
            requires
                q >= 0x8_0000_0000_0000,
                p0 <= 0x20_0000_0000_0000 * 16,
                TOP == 0x20_0000_0000_0000,
        ;
    }
    if p0 == 0 {
        proof {
            assert(0nat % q == 0 && 0nat / q == 0) by (nonlinear_arith)
                requires
                    q > 0,
            ;
            assert(0 * two_to(0) == 0);
        }
        return Binary { digits: 0, shift: 0 };
    }
    if s < 100 {
        proof {
            lemma_two_grows(s as nat, 100);
            lemma_two_add(64, 36);
            reveal_with_fuel(two_to, 37);
            assert(two_to(100) == 0x1_0000_0000_0000_0000 * 0x10_0000_0000) by (nonlinear_arith)
                requires
                    two_to(100) == two_to(64) * two_to(36),
                    two_to(64) == 0x1_0000_0000_0000_0000,
                    two_to(36) == 0x10_0000_0000,
            ;
            assert(b * c <= 0x1_0000_0000_0000_0000 * 0x10_0000_0000 * 1_000_000)
                by (nonlinear_arith)
                requires
                    b <= 0x1_0000_0000_0000_0000 * 0x10_0000_0000,
                    c <= 1_000_000,
            ;
        }
        let d: u128 = b * c;
        if p0 % d == 0 {
            let m: u128 = p0 / d;
            assert(m <= 0x20_0000_0000_0000) by (nonlinear_arith)
                requires
                    m == p0 / d,
                    d >= 0x8_0000_0000_0000,
                    p0 <= 0x20_0000_0000_0000 * 16,
            ;
            assert(m * two_to(0) == m) by (nonlinear_arith)
                requires
                    two_to(0) == 1,
            ;
            return Binary { digits: m as u64, shift: 0 };
        }
    } else {
        proof {
            lemma_two_grows(64, s as nat);
            lemma_fundamental_div_mod_converse(p0 as int, q as int, 0, p0 as int);
        }
    }
    assert(LOW * c <= 0x10_0000_0000_0000 * 1_000_000) by (nonlinear_arith)
        requires
            LOW == 0x10_0000_0000_0000,
            c <= 1_000_000,
    ;
    if p0 < LOW as u128 * c {
        deep_up(p0, c, s)
    } else {
        deep_down(p0, c, s)
    }
}

// ------------------------------------------------------------------------ laws

/// What doubling comes to: no more than is needed.
proof fn lemma_doubled(p: nat, q: nat, i: nat)
    requires
        i <= HALVED_MOST,
        i == 0 || p * two_to((i - 1) as nat) < LOW * q,
    ensures
        ({
            let k = doublings(p * two_to(i), q, i);
            &&& i <= k <= HALVED_MOST
            &&& k == HALVED_MOST || p * two_to(k) >= LOW * q
            &&& k == 0 || p * two_to((k - 1) as nat) < LOW * q
        }),
    decreases HALVED_MOST - i,
{
    if i < HALVED_MOST && p * two_to(i) < LOW * q {
        assert(2 * (p * two_to(i)) == p * two_to(i + 1)) by (nonlinear_arith)
            requires
                two_to(i + 1) == 2 * two_to(i),
        ;
        lemma_doubled(p, q, i + 1);
    }
}

/// Rounding to units of which there are more than `q / 2` in one crosses no whole number.
proof fn lemma_rounded_between(p: nat, q: nat, t: nat)
    requires
        q > 0,
        q < 2 * t,
    ensures
        ({
            let m = nearest(p * t, q);
            &&& m / t == p / q
            &&& p % q != 0 ==> m % t != 0
        }),
{
    let w = p / q;
    let r = p % q;
    let a = p * t;
    let m = nearest(a, q);
    let b = a / q;
    let s = a % q;
    lemma_fundamental_div_mod(p as int, q as int);
    lemma_fundamental_div_mod(a as int, q as int);
    assert(a == q * b + s);
    assert(p == q * w + r);
    assert(2 * (m * q) <= 2 * a + q && 2 * a <= 2 * (m * q) + q) by {
        if m == b {
            assert(m * q == q * b) by (nonlinear_arith)
                requires
                    m == b,
            ;
            assert(2 * s <= q);
        } else {
            assert(m * q == q * b + q) by (nonlinear_arith)
                requires
                    m == b + 1,
            ;
            assert(2 * s >= q);
        }
    }
    let wt = w * t;
    assert(a == wt * q + r * t) by (nonlinear_arith)
        requires
            a == p * t,
            p == q * w + r,
            wt == w * t,
    ;
    assert(r * t + t <= q * t) by (nonlinear_arith)
        requires
            r + 1 <= q,
    ;
    assert(m < wt + t) by (nonlinear_arith)
        requires
            2 * (m * q) <= 2 * a + q,
            a == wt * q + r * t,
            r * t + t <= q * t,
            q < 2 * t,
            q > 0,
    ;
    assert(m >= wt) by (nonlinear_arith)
        requires
            2 * a <= 2 * (m * q) + q,
            a == wt * q + r * t,
            r >= 0,
            t >= 0,
            q > 0,
    ;
    if r > 0 {
        assert(r * t >= t) by (nonlinear_arith)
            requires
                r >= 1,
        ;
        assert(m > wt) by (nonlinear_arith)
            requires
                2 * a <= 2 * (m * q) + q,
                a == wt * q + r * t,
                r * t >= t,
                q < 2 * t,
                q > 0,
        ;
    }
    lemma_fundamental_div_mod_converse(m as int, t as int, w as int, m - wt);
}

/// Rounding a fraction whose upper part has no more than 53 binary digits crosses no whole
/// number, and makes none of what was not one, unless it is smaller than every number.
pub proof fn law_whole_part_is_kept(p: nat, q: nat)
    requires
        p < TOP,
        0 < q,
    ensures
        machine(p, q) matches Some(x) && x.1 > 0 && x.0 / x.1 == p / q && (q <= two_to(1074) ==> (x.0
            % x.1 == 0) == (p % q == 0)),
{
    lemma_fundamental_div_mod(p as int, q as int);
    if p % q == 0 {
        assert(p / q <= p) by (nonlinear_arith)
            requires
                q > 0,
        ;
        assert((p / q) / 1 == p / q && (p / q) % 1 == 0);
    } else {
        let k = doublings(p, q, 0);
        let t = two_to(k);
        lemma_doubled(p, q, 0);
        assert(p * two_to(0) == p) by (nonlinear_arith)
            requires
                two_to(0) == 1,
        ;
        lemma_two_add(k, 0);
        if p * t >= LOW * q {
            assert(q < 2 * t) by (nonlinear_arith)
                requires
                    p * t >= LOW * q,
                    p < TOP,
                    TOP == 2 * LOW,
                    LOW > 0,
                    t > 0,
            ;
        }
        if q < 2 * t {
            lemma_rounded_between(p, q, t);
        } else {
            lemma_nearest_most(p * t, q, LOW as nat);
            lemma_two_small();
            lemma_two_grows(64, 1074);
            let m = nearest(p * t, q);
            assert(p < q) by (nonlinear_arith)
                requires
                    p * t < LOW * q,
                    LOW <= t,
            ;
            lemma_fundamental_div_mod_converse(p as int, q as int, 0, p as int);
            lemma_fundamental_div_mod_converse(m as int, t as int, 0, m as int);
        }
        assert(p < TOP * q) by (nonlinear_arith)
            requires
                p < TOP,
                q >= 1,
        ;
    }
}

} // verus!
