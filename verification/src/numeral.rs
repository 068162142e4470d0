//! Numbers written out in decimal digits: which of the numbers that a machine holds lies
//! nearest to one.

use crate::double::{
    lemma_doublings_are, lemma_halvings_are, lemma_nearest_most, lemma_nearest_none,
    lemma_nearest_scaled, lemma_two_add, lemma_two_grows, machine, same_size, two_to, Binary,
    DOUBLED_MOST, HALVED_MOST, LOW, TOP,
};
use crate::numbers::{all_figures, figures, is_figure, nearest};
use crate::text::{chars_of, dec, decimal, digit};
use vstd::arithmetic::div_mod::{
    lemma_div_multiples_vanish_quotient, lemma_fundamental_div_mod_converse, lemma_truncate_middle,
};
use vstd::prelude::*;

verus! {

/// Ten, `n` times multiplied with itself.
pub open spec fn ten_to(n: nat) -> nat
    decreases n,
{
    if n == 0 {
        1
    } else {
        10 * ten_to((n - 1) as nat)
    }
}

/// How often ten goes into what digits make when the point stands behind the first `point`
/// of them, beyond what they are as a whole number.
pub open spec fn zeros_behind(d: Seq<char>, point: int) -> nat {
    if point > d.len() {
        (point - d.len()) as nat
    } else {
        0
    }
}

/// How many digits stand behind the point.
pub open spec fn places(d: Seq<char>, point: int) -> nat {
    if point < d.len() {
        (d.len() - point) as nat
    } else {
        0
    }
}

/// The number that lies nearest to the one that digits make, with the point behind the
/// first `point` of them, as a fraction. There is none where it would be too large.
pub open spec fn read_digits(d: Seq<char>, point: int) -> Option<(nat, nat)> {
    machine(
        figures(d, d.len() as int) * ten_to(zeros_behind(d, point)),
        ten_to(places(d, point)),
    )
}

/// The first position at or after `i` of a digit that is not zero.
pub open spec fn first_nonzero(d: Seq<char>, i: int) -> int
    decreases d.len() - i,
{
    if i < 0 || i >= d.len() || d[i] != '0' {
        i
    } else {
        first_nonzero(d, i + 1)
    }
}

// --------------------------------------------------------------------- powers of ten

proof fn lemma_ten_add(a: nat, b: nat)
    ensures
        ten_to(a + b) == ten_to(a) * ten_to(b),
        ten_to(a) > 0,
    decreases a,
{
    if a > 0 {
        lemma_ten_add((a - 1) as nat, b);
        assert(ten_to(a + b) == 10 * ten_to((a + b - 1) as nat));
        assert(ten_to(a) * ten_to(b) == 10 * (ten_to((a - 1) as nat) * ten_to(b)))
            by (nonlinear_arith)
            requires
                ten_to(a) == 10 * ten_to((a - 1) as nat),
        ;
    } else {
        assert(ten_to(0) * ten_to(b) == ten_to(b)) by (nonlinear_arith)
            requires
                ten_to(0) == 1,
        ;
    }
}

/// Ten is more than two three times multiplied with itself.
proof fn lemma_ten_large(n: nat)
    ensures
        ten_to(n) >= two_to(3 * n),
    decreases n,
{
    if n > 0 {
        let m = (n - 1) as nat;
        lemma_ten_large(m);
        reveal_with_fuel(two_to, 4);
        assert(two_to(3 * n) == 8 * two_to(3 * m));
    }
}

pub proof fn lemma_ten_positive(n: nat)
    ensures
        ten_to(n) > 0,
{
    lemma_ten_add(n, 0);
}

// ----------------------------------------------------------------- digits, lowest first

spec fn tidy(v: Seq<u8>) -> bool {
    forall|i: int| 0 <= i < v.len() ==> #[trigger] v[i] < 10
}

/// The number that the first `n` digits make, the lowest of them first.
spec fn below(v: Seq<u8>, n: int) -> nat
    decreases n,
{
    if n <= 0 {
        0
    } else {
        below(v, n - 1) + v[n - 1] as nat * ten_to((n - 1) as nat)
    }
}

/// The number that the digits from `i` on make, the lowest of them first.
spec fn above(v: Seq<u8>, i: int) -> nat
    decreases v.len() - i,
{
    if i < 0 || i >= v.len() {
        0
    } else {
        v[i] as nat + 10 * above(v, i + 1)
    }
}

spec fn all_of(v: Seq<u8>) -> nat {
    below(v, v.len() as int)
}

proof fn lemma_below_same(a: Seq<u8>, b: Seq<u8>, n: int)
    requires
        n <= a.len(),
        n <= b.len(),
        forall|i: int| 0 <= i < n ==> a[i] == b[i],
    ensures
        below(a, n) == below(b, n),
    decreases n,
{
    if n > 0 {
        lemma_below_same(a, b, n - 1);
    }
}

proof fn lemma_below_small(v: Seq<u8>, n: int)
    requires
        0 <= n <= v.len(),
        tidy(v),
    ensures
        below(v, n) < ten_to(n as nat),
    decreases n,
{
    if n > 0 {
        lemma_below_small(v, n - 1);
        let t = ten_to((n - 1) as nat);
        assert(v[n - 1] < 10);
        assert(v[n - 1] as nat * t <= 9 * t) by (nonlinear_arith)
            requires
                v[n - 1] <= 9,
        ;
    }
}

proof fn lemma_split(v: Seq<u8>, i: int)
    requires
        0 <= i <= v.len(),
    ensures
        all_of(v) == below(v, i) + ten_to(i as nat) * above(v, i),
    decreases v.len() - i,
{
    let t = ten_to(i as nat);
    if i < v.len() {
        lemma_split(v, i + 1);
        let a = above(v, i + 1);
        let x = v[i] as nat;
        assert((10 * t) * a + x * t == t * (x + 10 * a)) by (nonlinear_arith);
    } else {
        assert(t * 0 == 0);
    }
}

/// The whole part and the rest of a long number with `f` digits behind its point.
proof fn lemma_parts(v: Seq<u8>, f: int)
    requires
        0 <= f <= v.len(),
        tidy(v),
    ensures
        ten_to(f as nat) > 0,
        all_of(v) / ten_to(f as nat) == above(v, f),
        all_of(v) % ten_to(f as nat) == below(v, f),
        all_of(v) == above(v, f) * ten_to(f as nat) + below(v, f),
        below(v, f) < ten_to(f as nat),
{
    lemma_split(v, f);
    lemma_below_small(v, f);
    lemma_ten_add(f as nat, 0);
    let q = ten_to(f as nat);
    let w = above(v, f);
    assert(q * w == w * q) by (nonlinear_arith);
    lemma_fundamental_div_mod_converse(all_of(v) as int, q as int, w as int, below(v, f) as int);
}

/// A long number multiplied with a digit.
fn grown(v: &Vec<u8>, by: u8) -> (out: Vec<u8>)
    requires
        tidy(v@),
        0 < by <= 5,
    ensures
        tidy(out@),
        out@.len() == v@.len() + 1,
        all_of(out@) == by as nat * all_of(v@),
{
    let mut out: Vec<u8> = Vec::new();
    let mut carry: u8 = 0;
    let mut i: usize = 0;
    assert(by as nat * 0 == 0);
    while i < v.len()
        invariant
            i <= v@.len(),
            out@.len() == i,
            tidy(v@),
            tidy(out@),
            0 < by <= 5,
            carry < 5,
            by as nat * below(v@, i as int) == below(out@, i as int) + carry as nat * ten_to(
                i as nat,
            ),
        decreases v@.len() - i,
    {
        let ghost before = out@;
        let ghost held = carry as nat;
        assert(v@[i as int] < 10);
        assert(v@[i as int] * by + carry <= 49) by (nonlinear_arith)
            requires
                v@[i as int] <= 9,
                by <= 5,
                carry < 5,
        ;
        let x: u8 = v[i] * by + carry;
        out.push(x % 10);
        carry = x / 10;
        proof {
            let t = ten_to(i as nat);
            let d = v@[i as int] as nat;
            let b = by as nat;
            let low = below(v@, i as int);
            lemma_below_same(before, out@, i as int);
            assert(b * (low + d * t) == b * low + (b * d) * t) by (nonlinear_arith);
            assert(d * b == b * d) by (nonlinear_arith);
            assert(x as nat == 10 * (x as nat / 10) + x as nat % 10);
            let hi = x as nat / 10;
            let lo = x as nat % 10;
            assert(held * t + (b * d) * t == lo * t + hi * (10 * t)) by (nonlinear_arith)
                requires
                    b * d + held == 10 * hi + lo,
            ;
        }
        i += 1;
    }
    let ghost before = out@;
    out.push(carry);
    proof {
        lemma_below_same(before, out@, i as int);
    }
    out
}

/// The whole part of a long number with `f` digits behind its point; of a larger one, the
/// first that is more than 53 binary digits can tell.
fn whole_of(v: &Vec<u8>, f: usize) -> (w: u64)
    requires
        f <= v@.len(),
        tidy(v@),
    ensures
        w == (if above(v@, f as int) <= TOP {
            above(v@, f as int)
        } else {
            TOP as nat + 1
        }),
{
    let mut w: u64 = 0;
    let mut i: usize = v.len();
    while i > f
        invariant
            f <= i <= v@.len(),
            tidy(v@),
            w == (if above(v@, i as int) <= TOP {
                above(v@, i as int)
            } else {
                TOP as nat + 1
            }),
        decreases i,
    {
        i -= 1;
        assert(v@[i as int] < 10);
        let x: u64 = w * 10 + v[i] as u64;
        w = if x <= TOP {
            x
        } else {
            TOP + 1
        };
    }
    w
}

fn only_zeros(v: &Vec<u8>, n: usize) -> (out: bool)
    requires
        n <= v@.len(),
    ensures
        out == (below(v@, n as int) == 0),
{
    let mut i: usize = 0;
    while i < n
        invariant
            i <= n <= v@.len(),
            below(v@, i as int) == 0,
        decreases n - i,
    {
        if v[i] != 0 {
            proof {
                lemma_ten_add(i as nat, 0);
                let t = ten_to(i as nat);
                assert(v@[i as int] as nat * t > 0) by (nonlinear_arith)
                    requires
                        v@[i as int] > 0,
                        t > 0,
                ;
                lemma_below_grows(v@, i + 1, n as int);
            }
            return false;
        }
        i += 1;
        assert(0 * ten_to((i - 1) as nat) == 0);
    }
    true
}

proof fn lemma_below_grows(v: Seq<u8>, i: int, n: int)
    requires
        0 <= i <= n <= v.len(),
    ensures
        below(v, i) <= below(v, n),
    decreases n,
{
    if i < n {
        lemma_below_grows(v, i, n - 1);
    }
}

/// A long number rounded to a whole one, given its whole part.
fn rounded(v: &Vec<u8>, f: usize, w: u64, larger: bool) -> (out: u64)
    requires
        f <= v@.len(),
        tidy(v@),
        w == above(v@, f as int),
        w < u64::MAX,
    ensures
        out == nearest_by(all_of(v@), ten_to(f as nat), larger),
{
    proof {
        lemma_parts(v@, f as int);
    }
    if f == 0 {
        return w;
    }
    proof {
        lemma_parts(v@, f - 1);
        lemma_below_small(v@, f - 1);
    }
    let x: u8 = v[f - 1];
    let ghost t = ten_to((f - 1) as nat);
    let ghost r = below(v@, f as int);
    assert(r == below(v@, f - 1) + x as nat * t);
    assert(ten_to(f as nat) == 10 * t);
    assert(v@[f - 1] < 10);
    if x < 5 {
        assert(x as nat * t <= 4 * t) by (nonlinear_arith)
            requires
                x <= 4,
        ;
        return w;
    }
    if x > 5 {
        assert(x as nat * t >= 6 * t) by (nonlinear_arith)
            requires
                x >= 6,
        ;
        return w + 1;
    }
    assert(x as nat * t == 5 * t);
    if only_zeros(v, f - 1) && w % 2 == 0 && !larger {
        w
    } else {
        w + 1
    }
}

// ---------------------------------------------------------------------- the nearest number

/// Whether a number with the whole part `w` and a rest is below a whole number.
proof fn lemma_whole_below(p: nat, q: nat, w: nat, r: nat, c: nat)
    requires
        p == w * q + r,
        r < q,
    ensures
        (p < c * q) == (w < c),
{
    if w < c {
        assert(w * q + r < c * q) by (nonlinear_arith)
            requires
                w + 1 <= c,
                r < q,
        ;
    } else {
        assert(w * q >= c * q) by (nonlinear_arith)
            requires
                w >= c,
        ;
    }
}

/// The number nearest to one with no more than 53 binary digits before its point.
fn close_small(start: Vec<u8>, f: usize, first: u64) -> (out: Binary)
    requires
        f <= start@.len(),
        tidy(start@),
        first == above(start@, f as int),
        first < TOP,
        !(below(start@, f as int) == 0),
    ensures
        machine(all_of(start@), ten_to(f as nat)) == Some(out.view()),
        out.digits <= TOP,
        -1075 < out.shift <= 0,
{
    let ghost p = all_of(start@);
    let ghost q = ten_to(f as nat);
    let mut v: Vec<u8> = start;
    let mut w: u64 = first;
    let mut k: u32 = 0;
    proof {
        lemma_parts(v@, f as int);
        lemma_whole_below(p, q, w as nat, below(v@, f as int), TOP as nat);
        assert(p * two_to(0) == p) by (nonlinear_arith)
            requires
                two_to(0) == 1,
        ;
    }
    while k < HALVED_MOST && w < LOW
        invariant
            f <= v@.len(),
            tidy(v@),
            k <= HALVED_MOST,
            q == ten_to(f as nat),
            all_of(v@) == p * two_to(k as nat),
            w == above(v@, f as int),
            w < TOP,
            k == 0 || p * two_to((k - 1) as nat) < LOW * q,
        decreases HALVED_MOST - k,
    {
        proof {
            lemma_parts(v@, f as int);
            lemma_whole_below(all_of(v@), q, w as nat, below(v@, f as int), LOW as nat);
            assert(2 * (p * two_to(k as nat)) == p * two_to((k + 1) as nat)) by (nonlinear_arith)
                requires
                    two_to((k + 1) as nat) == 2 * two_to(k as nat),
            ;
        }
        v = grown(&v, 2);
        proof {
            lemma_parts(v@, f as int);
            lemma_whole_below(
                all_of(v@),
                q,
                above(v@, f as int),
                below(v@, f as int),
                TOP as nat,
            );
        }
        w = whole_of(&v, f);
        k += 1;
    }
    let m: u64 = rounded(&v, f, w, false);
    proof {
        lemma_parts(v@, f as int);
        lemma_whole_below(all_of(v@), q, w as nat, below(v@, f as int), LOW as nat);
        lemma_whole_below(all_of(v@), q, w as nat, below(v@, f as int), TOP as nat);
        lemma_doublings_are(p, q, k as nat);
        lemma_nearest_most(all_of(v@), q, TOP as nat);
        if k == 0 {
            assert(m as nat * two_to(0) == m) by (nonlinear_arith)
                requires
                    two_to(0) == 1,
            ;
        }
    }
    Binary { digits: m, shift: -(k as i32) }
}

/// The number nearest to one with more than 53 binary digits before its point.
fn close_large(start: Vec<u8>, places: usize, first: u64) -> (out: Option<Binary>)
    requires
        places <= start@.len(),
        tidy(start@),
        above(start@, places as int) >= TOP,
        !(below(start@, places as int) == 0 && above(start@, places as int) == TOP),
        first >= TOP,
    ensures
        match out {
            Some(b) => {
                &&& machine(all_of(start@), ten_to(places as nat)) == Some(b.view())
                &&& b.digits <= TOP
                &&& 0 < b.shift <= 971
            },
            None => machine(all_of(start@), ten_to(places as nat)) is None,
        },
{
    let ghost p = all_of(start@);
    let ghost q = ten_to(places as nat);
    let mut v: Vec<u8> = start;
    let mut f: usize = places;
    let mut w: u64 = first;
    let mut j: u32 = 0;
    let ghost mut c: nat = 1;
    proof {
        lemma_parts(v@, f as int);
        lemma_whole_below(p, q, above(v@, f as int), below(v@, f as int), TOP as nat);
        assert(p * 1 == p);
        assert(q * two_to(0) * 1 == q) by (nonlinear_arith)
            requires
                two_to(0) == 1,
        ;
        assert(q * two_to(0) == q) by (nonlinear_arith)
            requires
                two_to(0) == 1,
        ;
    }
    while j <= DOUBLED_MOST && w >= TOP
        invariant
            f <= v@.len(),
            tidy(v@),
            j <= DOUBLED_MOST + 1,
            c > 0,
            q > 0,
            all_of(v@) == p * c,
            ten_to(f as nat) == q * two_to(j as nat) * c,
            j == 0 ==> w >= TOP,
            j > 0 ==> w == (if above(v@, f as int) <= TOP {
                above(v@, f as int)
            } else {
                TOP as nat + 1
            }),
            j == 0 ==> above(v@, f as int) >= TOP,
            j == 0 || p >= TOP * (q * two_to((j - 1) as nat)),
        decreases DOUBLED_MOST + 1 - j,
    {
        let ghost b = q * two_to(j as nat);
        proof {
            lemma_parts(v@, f as int);
            lemma_whole_below(
                all_of(v@),
                ten_to(f as nat),
                above(v@, f as int),
                below(v@, f as int),
                TOP as nat,
            );
            assert(p >= TOP * b) by (nonlinear_arith)
                requires
                    p * c >= TOP * (b * c),
                    c > 0,
            ;
            assert(5 * (p * c) == p * (5 * c)) by (nonlinear_arith);
            assert(10 * (b * c) == q * two_to((j + 1) as nat) * (5 * c)) by (nonlinear_arith)
                requires
                    b == q * two_to(j as nat),
                    two_to((j + 1) as nat) == 2 * two_to(j as nat),
            ;
        }
        v = grown(&v, 5);
        let n: usize = v.len();
        assert(f < n);
        f += 1;
        w = whole_of(&v, f);
        j += 1;
        proof {
            c = 5 * c;
        }
    }
    let ghost b = q * two_to(j as nat);
    proof {
        lemma_parts(v@, f as int);
        lemma_whole_below(
            all_of(v@),
            ten_to(f as nat),
            above(v@, f as int),
            below(v@, f as int),
            TOP as nat,
        );
        lemma_parts(start@, places as int);
        assert(j > 0);
    }
    if w >= TOP {
        proof {
            lemma_halvings_are(p, q, j as nat);
        }
        return None;
    }
    proof {
        assert(p < TOP * b) by (nonlinear_arith)
            requires
                p * c < TOP * (b * c),
        ;
        lemma_halvings_are(p, q, j as nat);
    }
    if j > DOUBLED_MOST {
        return None;
    }
    let m: u64 = rounded(&v, f, w, false);
    proof {
        lemma_two_add(j as nat, 0);
        assert(b > 0) by (nonlinear_arith)
            requires
                b == q * two_to(j as nat),
                q > 0,
                two_to(j as nat) > 0,
        ;
        lemma_nearest_scaled(p, b, c);
        lemma_nearest_most(p, b, TOP as nat);
    }
    if j == DOUBLED_MOST && m == TOP {
        return None;
    }
    Some(Binary { digits: m, shift: j as i32 })
}

/// The number nearest to a long one with `f` digits behind its point.
fn close(v: Vec<u8>, f: usize) -> (out: Option<Binary>)
    requires
        f <= v@.len(),
        tidy(v@),
    ensures
        match out {
            Some(b) => {
                &&& machine(all_of(v@), ten_to(f as nat)) == Some(b.view())
                &&& b.digits <= TOP
                &&& -1075 < b.shift <= 971
            },
            None => machine(all_of(v@), ten_to(f as nat)) is None,
        },
{
    let w: u64 = whole_of(&v, f);
    let exact: bool = only_zeros(&v, f);
    proof {
        lemma_parts(v@, f as int);
    }
    if exact && w <= TOP {
        assert(w as nat * two_to(0) == w) by (nonlinear_arith)
            requires
                two_to(0) == 1,
        ;
        return Some(Binary { digits: w, shift: 0 });
    }
    if w < TOP {
        Some(close_small(v, f, w))
    } else {
        close_large(v, f, w)
    }
}

/// The digits from the first that is not zero on.
proof fn lemma_figures_bounds(d: Seq<char>, z: int, n: int)
    requires
        all_figures(d),
        z == first_nonzero(d, 0),
        0 <= n <= d.len(),
    ensures
        n <= z ==> figures(d, n) == 0,
        n > z ==> ten_to((n - 1 - z) as nat) <= figures(d, n) < ten_to((n - z) as nat),
    decreases n,
{
    lemma_zeros_before(d, 0);
    if n > 0 {
        lemma_figures_bounds(d, z, n - 1);
        assert(is_figure(d[n - 1]));
        if n <= z {
            assert(d[n - 1] == '0');
        } else if n - 1 == z {
            assert(d[z] != '0');
            assert(ten_to(0) == 1 && ten_to(1) == 10 * ten_to(0));
        }
    }
}

proof fn lemma_zeros_before(d: Seq<char>, i: int)
    requires
        0 <= i <= d.len(),
    ensures
        i <= first_nonzero(d, i) <= d.len(),
        forall|k: int| i <= k < first_nonzero(d, i) ==> d[k] == '0',
        first_nonzero(d, i) < d.len() ==> d[first_nonzero(d, i)] != '0',
    decreases d.len() - i,
{
    if i < d.len() && d[i] == '0' {
        lemma_zeros_before(d, i + 1);
    }
}

/// How far beyond every number a decimal number lies that has more digits before its point
/// than this.
const FAR: u64 = 400;

proof fn lemma_far_power(n: nat)
    requires
        n >= FAR,
    ensures
        ten_to(n) >= TOP * two_to(971),
        two_to(971) > 1,
{
    lemma_ten_large(n);
    lemma_two_grows(1200, 3 * n);
    lemma_two_add(53, 971);
    lemma_two_grows(1024, 1200);
    lemma_two_grows(1, 971);
    assert(two_to(1) == 2 * two_to(0));
    assert(two_to(53) == TOP) by {
        reveal_with_fuel(two_to, 54);
    }
}

proof fn lemma_far(d: Seq<char>, point: int)
    requires
        all_figures(d),
        first_nonzero(d, 0) < d.len(),
        point - first_nonzero(d, 0) > FAR,
    ensures
        read_digits(d, point) is None,
{
    let z = first_nonzero(d, 0);
    lemma_zeros_before(d, 0);
    lemma_figures_bounds(d, z, d.len() as int);
    let g = figures(d, d.len() as int);
    let a = zeros_behind(d, point);
    let b = places(d, point);
    let p = g * ten_to(a);
    let q = ten_to(b);
    let n = (point - z - 1) as nat;
    let h = (d.len() - 1 - z) as nat;
    lemma_ten_add(h, a);
    lemma_ten_add(a, 0);
    lemma_ten_add(n, b);
    lemma_ten_add(b, 0);
    assert(h + a == n + b);
    assert(p >= ten_to(h) * ten_to(a)) by (nonlinear_arith)
        requires
            p == g * ten_to(a),
            g >= ten_to(h),
    ;
    assert(p >= ten_to(n) * q);
    let t = two_to(971);
    lemma_far_power(n);
    assert(ten_to(n) * q >= TOP * (q * t)) by (nonlinear_arith)
        requires
            ten_to(n) >= TOP * t,
    ;
    lemma_halvings_are(p, q, 972);
    assert(TOP * t > TOP) by (nonlinear_arith)
        requires
            t > 1,
            TOP > 0,
    ;
    assert(p / q >= ten_to(n)) by (nonlinear_arith)
        requires
            p >= ten_to(n) * q,
            q > 0,
    ;
    assert(q * t >= q) by (nonlinear_arith)
        requires
            t >= 1,
    ;
}

proof fn lemma_tiny(d: Seq<char>, point: int)
    requires
        all_figures(d),
        first_nonzero(d, 0) < d.len(),
        point - first_nonzero(d, 0) < -(FAR as int),
    ensures
        read_digits(d, point) == Some((0nat, two_to(1074))),
{
    let z = first_nonzero(d, 0);
    lemma_zeros_before(d, 0);
    lemma_figures_bounds(d, z, d.len() as int);
    let p = figures(d, d.len() as int);
    let n = (z - point) as nat;
    let h = (d.len() - z) as nat;
    let q = ten_to(places(d, point));
    assert(p * ten_to(0) == p) by (nonlinear_arith)
        requires
            ten_to(0) == 1,
    ;
    lemma_ten_add(h, n);
    lemma_ten_add(h, 0);
    assert(places(d, point) == h + n);
    lemma_ten_large(n);
    lemma_two_grows(1200, 3 * n);
    lemma_two_grows(1075, 1200);
    let t = two_to(1074);
    assert(two_to(1075) == 2 * t);
    assert(ten_to(h) * ten_to(n) >= ten_to(h) * (2 * t)) by (nonlinear_arith)
        requires
            ten_to(n) >= 2 * t,
    ;
    assert(2 * (p * t) < ten_to(h) * (2 * t)) by (nonlinear_arith)
        requires
            p < ten_to(h),
            t > 0,
    ;
    lemma_two_add(1074, 0);
    assert(p <= p * t) by (nonlinear_arith)
        requires
            t >= 1,
    ;
    assert(p < q);
    lemma_ten_add(0, 0);
    assert(p > 0) by {
        lemma_ten_add((d.len() - 1 - z) as nat, 0);
    }
    lemma_fundamental_div_mod_converse(p as int, q as int, 0, p as int);
    assert(q <= LOW * q && q <= TOP * q) by (nonlinear_arith)
        requires
            q >= 0,
            LOW >= 1,
            TOP >= 1,
    ;
    lemma_two_grows(1073, 1074);
    let s = two_to(1073);
    assert(p * s <= p * t) by (nonlinear_arith)
        requires
            s <= t,
    ;
    lemma_doublings_are(p, q, 1074);
    lemma_nearest_none(p * t, q);
}

fn first_counting(d: &Vec<char>) -> (z: usize)
    ensures
        z == first_nonzero(d@, 0),
        z <= d@.len(),
{
    let mut z: usize = 0;
    while z < d.len() && d[z] == '0'
        invariant
            z <= d@.len(),
            first_nonzero(d@, 0) == first_nonzero(d@, z as int),
        decreases d@.len() - z,
    {
        z += 1;
    }
    z
}

fn push_zeros(v: &mut Vec<u8>, n: u64)
    requires
        tidy(old(v)@),
    ensures
        tidy(final(v)@),
        final(v)@.len() == old(v)@.len() + n,
        all_of(final(v)@) == all_of(old(v)@),
{
    let ghost start = v@;
    let mut i: u64 = 0;
    while i < n
        invariant
            i <= n,
            tidy(v@),
            v@.len() == start.len() + i,
            all_of(v@) == all_of(start),
        decreases n - i,
    {
        let ghost before = v@;
        v.push(0);
        proof {
            lemma_below_same(before, v@, before.len() as int);
            assert(0 * ten_to(before.len()) == 0);
        }
        i += 1;
    }
}

/// The number nearest to the one that digits make, with the point behind the first `point`
/// of them.
pub fn approximate(d: &Vec<char>, point: i128) -> (out: Option<Binary>)
    requires
        all_figures(d@),
        -0x100_0000_0000_0000_0000 <= point <= 0x100_0000_0000_0000_0000,
    ensures
        match out {
            Some(b) => {
                &&& read_digits(d@, point as int) == Some(b.view())
                &&& b.digits <= TOP
                &&& -1075 < b.shift <= 971
            },
            None => read_digits(d@, point as int) is None,
        },
{
    let len: usize = d.len();
    let z: usize = first_counting(d);
    proof {
        lemma_zeros_before(d@, 0);
        lemma_figures_bounds(d@, z as int, len as int);
        lemma_ten_add(zeros_behind(d@, point as int), 0);
        lemma_ten_add(places(d@, point as int), 0);
    }
    if z == len {
        proof {
            let t = ten_to(zeros_behind(d@, point as int));
            let q = ten_to(places(d@, point as int));
            assert(0 * t == 0);
            lemma_fundamental_div_mod_converse(0, q as int, 0, 0);
            assert(0 * two_to(0) == 0);
        }
        return Some(Binary { digits: 0, shift: 0 });
    }
    let size: i128 = point - z as i128;
    if size > FAR as i128 {
        proof {
            lemma_far(d@, point as int);
        }
        return None;
    }
    if size < -(FAR as i128) {
        proof {
            lemma_tiny(d@, point as int);
        }
        return Some(Binary { digits: 0, shift: -1074 });
    }
    let behind: u64 = if point > len as i128 {
        (point - len as i128) as u64
    } else {
        0
    };
    let mut v: Vec<u8> = Vec::new();
    push_zeros(&mut v, behind);
    let ghost m = behind as nat;
    let ghost g = figures(d@, len as int);
    let mut i: usize = len;
    while i > 0
        invariant
            i <= len,
            len == d@.len(),
            all_figures(d@),
            tidy(v@),
            v@.len() == m + (len - i),
            g == figures(d@, len as int),
            g * ten_to(m) == figures(d@, i as int) * ten_to((m + (len - i)) as nat) + all_of(v@),
        decreases i,
    {
        i -= 1;
        assert(is_figure(d@[i as int]));
        let x: u8 = (d[i] as u32 - 48) as u8;
        let ghost before = v@;
        v.push(x);
        proof {
            lemma_below_same(before, v@, before.len() as int);
            let t = ten_to(before.len());
            let a = figures(d@, i as int);
            assert((a * 10 + x as nat) * t == a * (10 * t) + x as nat * t) by (nonlinear_arith);
            assert(ten_to((before.len() + 1) as nat) == 10 * t);
        }
    }
    assert(0 * ten_to(m + len as nat) == 0);
    let f: usize = if point >= len as i128 {
        0
    } else if point > 0 {
        len - point as usize
    } else {
        push_zeros(&mut v, (-point) as u64);
        v.len()
    };
    close(v, f)
}

// ------------------------------------------------------------------- the fewest digits

pub open spec fn up(e: int) -> nat {
    if e > 0 {
        e as nat
    } else {
        0
    }
}

pub open spec fn down(e: int) -> nat {
    if e < 0 {
        (-e) as nat
    } else {
        0
    }
}

/// A number in units of ten to the power `e`.
pub open spec fn in_units(x: (nat, nat), e: int) -> (nat, nat) {
    (x.0 * ten_to(down(e)), x.1 * ten_to(up(e)))
}

/// Whether so many units of ten to the power `e` are read as a number.
pub open spec fn reads_as(n: nat, e: int, x: (nat, nat)) -> bool {
    machine(n * ten_to(up(e)), ten_to(down(e))) matches Some(y) && x.0 * y.1 == y.0 * x.1
}

/// The whole number nearest to a fraction; of two equally near, the larger or the even one.
pub open spec fn nearest_by(num: nat, den: nat, larger: bool) -> nat {
    if larger && 2 * (num % den) == den {
        num / den + 1
    } else {
        nearest(num, den)
    }
}

/// The unit from which on a number is tried: larger than every number.
pub const FIRST_UNIT: i32 = 400;

/// More than sixteen digits are always enough.
pub const ENOUGH: u64 = 10_000_000_000_000_000;

/// The fewest digits that are read as a number: how many of the largest unit, ten to the
/// power `e` or smaller, of which a number of them is read as it. Of two, the nearer one;
/// of two equally near, the larger or the even one.
pub open spec fn fewest(x: (nat, nat), e: int, larger: bool) -> (nat, int)
    decreases e + 1100,
{
    let u = in_units(x, e);
    let near = nearest_by(u.0, u.1, larger);
    let other = if near > u.0 / u.1 {
        u.0 / u.1
    } else {
        u.0 / u.1 + 1
    };
    if e <= -1100 || u.0 % u.1 == 0 || near >= ENOUGH {
        (near, e)
    } else if near > 0 && reads_as(near, e, x) {
        (near, e)
    } else if near > 0 && reads_as(other, e, x) {
        (other, e)
    } else {
        fewest(x, e - 1, larger)
    }
}

pub proof fn lemma_dec_read(n: nat)
    ensures
        all_figures(dec(n)),
        dec(n).len() > 0,
        figures(dec(n), dec(n).len() as int) == n,
    decreases n,
{
    if n >= 10 {
        lemma_dec_read(n / 10);
        let s = dec(n / 10);
        lemma_figures_prefix(s, dec(n), s.len() as int);
        assert(dec(n)[s.len() as int] == digit(n % 10));
        assert forall|i: int| 0 <= i < dec(n).len() implies is_figure(#[trigger] dec(n)[i]) by {
            if i < s.len() {
                assert(is_figure(s[i]));
            }
        }
    } else {
        reveal_with_fuel(figures, 2);
    }
}

proof fn lemma_figures_prefix(a: Seq<char>, b: Seq<char>, n: int)
    requires
        n <= a.len(),
        n <= b.len(),
        forall|i: int| 0 <= i < n ==> a[i] == b[i],
    ensures
        figures(a, n) == figures(b, n),
    decreases n,
{
    if n > 0 {
        lemma_figures_prefix(a, b, n - 1);
    }
}

fn reads(n: u64, e: i32, x: Binary) -> (out: bool)
    requires
        -1100 <= e <= 400,
        x.digits <= TOP,
        -1075 < x.shift <= 971,
    ensures
        out == reads_as(n as nat, e as int, x.view()),
{
    let d: Vec<char> = chars_of(decimal(n).as_str());
    proof {
        lemma_dec_read(n as nat);
    }
    let point: i128 = d.len() as i128 + e as i128;
    match approximate(&d, point) {
        Some(y) => same_size(x, y),
        None => false,
    }
}

/// The same fraction in two forms.
proof fn lemma_same_fraction(a: nat, b: nat, c: nat, p: nat, q: nat, r: nat)
    requires
        b > 0,
        c > 0,
        q > 0,
        r > 0,
        a * c == p * r,
        b * c == q * r,
    ensures
        nearest(a, b) == nearest(p, q),
        a / b == p / q,
        (a % b == 0) == (p % q == 0),
        (2 * (a % b) == b) == (2 * (p % q) == q),
{
    lemma_nearest_scaled(a, b, c);
    lemma_nearest_scaled(p, q, r);
    lemma_div_multiples_vanish_quotient(c as int, a as int, b as int);
    lemma_div_multiples_vanish_quotient(r as int, p as int, q as int);
    lemma_truncate_middle(a as int, c as int, b as int);
    lemma_truncate_middle(p as int, r as int, q as int);
    assert(c * a == a * c && c * b == b * c && r * p == p * r && r * q == q * r)
        by (nonlinear_arith);
    let s = a % b;
    let t = p % q;
    assert(c * s == r * t);
    assert((s == 0) == (c * s == 0)) by (nonlinear_arith)
        requires
            c > 0,
    ;
    assert((t == 0) == (r * t == 0)) by (nonlinear_arith)
        requires
            r > 0,
    ;
    assert((2 * s == b) == (2 * (c * s) == c * b)) by (nonlinear_arith)
        requires
            c > 0,
    ;
    assert((2 * t == q) == (2 * (r * t) == r * q)) by (nonlinear_arith)
        requires
            r > 0,
    ;
}

/// A number in units, by its long form with `f` digits behind the point.
proof fn lemma_units(x: (nat, nat), e: int, a: nat, f: nat, c: nat)
    requires
        c > 0,
        x.0 * c == a,
        x.1 * c == ten_to(f),
        f + e >= 0,
    ensures
        ({
            let u = in_units(x, e);
            let q = ten_to((f + e) as nat);
            &&& nearest(u.0, u.1) == nearest(a, q)
            &&& u.0 / u.1 == a / q
            &&& (u.0 % u.1 == 0) == (a % q == 0)
            &&& (2 * (u.0 % u.1) == u.1) == (2 * (a % q) == q)
        }),
{
    let u = in_units(x, e);
    let g = (f + e) as nat;
    let r = ten_to(down(e));
    lemma_ten_add(f, 0);
    lemma_ten_add(g, 0);
    lemma_ten_add(down(e), 0);
    lemma_ten_add(up(e), 0);
    lemma_ten_add(f, up(e));
    lemma_ten_add(g, down(e));
    assert(f + up(e) == g + down(e));
    assert(u.0 * c == a * r) by (nonlinear_arith)
        requires
            u.0 == x.0 * r,
            x.0 * c == a,
    ;
    let h = ten_to(up(e));
    assert(u.1 * c == ten_to(f) * h) by (nonlinear_arith)
        requires
            u.1 == x.1 * h,
            x.1 * c == ten_to(f),
    ;
    assert(u.1 > 0) by (nonlinear_arith)
        requires
            u.1 * c == ten_to(f) * h,
            ten_to(f) > 0,
            h > 0,
    ;
    lemma_same_fraction(u.0, u.1, c, a, ten_to(g), r);
}

/// The digits of a number and how many of them stand behind the point, the lowest first.
fn spelled(x: Binary) -> (out: (Vec<u8>, usize, Ghost<nat>))
    requires
        0 < x.digits <= TOP,
        -1075 < x.shift <= 971,
    ensures
        tidy(out.0@),
        out.1 <= out.0@.len(),
        out.1 <= 1074,
        out.2@ > 0,
        x.view().0 * out.2@ == all_of(out.0@),
        x.view().1 * out.2@ == ten_to(out.1 as nat),
        0 < all_of(out.0@) < ten_to((out.1 + 400) as nat),
{
    let mut v: Vec<u8> = Vec::new();
    let mut n: u64 = x.digits;
    let ghost d = x.digits as nat;
    while n > 0
        invariant
            tidy(v@),
            d == n as nat * ten_to(v@.len()) + all_of(v@),
        decreases n,
    {
        let ghost before = v@;
        v.push((n % 10) as u8);
        proof {
            lemma_below_same(before, v@, before.len() as int);
            let t = ten_to(before.len());
            let h = n as nat / 10;
            let l = n as nat % 10;
            assert(n as nat * t == h * (10 * t) + l * t) by (nonlinear_arith)
                requires
                    n as nat == 10 * h + l,
            ;
        }
        n = n / 10;
    }
    assert(0 * ten_to(v@.len()) == 0);
    let ghost mut c: nat = 1;
    let mut f: usize = 0;
    let by: u8 = if x.shift >= 0 {
        2
    } else {
        5
    };
    let times: i32 = if x.shift >= 0 {
        x.shift
    } else {
        -x.shift
    };
    let mut i: i32 = 0;
    proof {
        assert(d * two_to(0) == d) by (nonlinear_arith)
            requires
                two_to(0) == 1,
        ;
        assert(two_to(0) * 1 == 1);
        assert(d * 1 == d);
    }
    while i < times
        invariant
            0 <= i <= times <= 1074,
            tidy(v@),
            f <= v@.len(),
            c > 0,
            by == 2 || by == 5,
            by == 2 ==> f == 0 && c == 1 && all_of(v@) == d * two_to(i as nat),
            by == 5 ==> f == i && all_of(v@) == d * c && ten_to(f as nat) == two_to(i as nat) * c,
        decreases times - i,
    {
        v = grown(&v, by);
        let len: usize = v.len();
        proof {
            let t = two_to(i as nat);
            assert(2 * (d * t) == d * two_to((i + 1) as nat)) by (nonlinear_arith)
                requires
                    two_to((i + 1) as nat) == 2 * t,
            ;
            assert(5 * (d * c) == d * (5 * c)) by (nonlinear_arith);
            assert(10 * (t * c) == two_to((i + 1) as nat) * (5 * c)) by (nonlinear_arith)
                requires
                    two_to((i + 1) as nat) == 2 * t,
            ;
            if by == 5 {
                c = 5 * c;
            }
        }
        if by == 5 {
            assert(f < len);
            f += 1;
        }
        i += 1;
    }
    proof {
        lemma_spelled(x, all_of(v@), f as nat, c);
    }
    (v, f, Ghost(c))
}

proof fn lemma_spelled(x: Binary, a: nat, f: nat, c: nat)
    requires
        0 < x.digits <= TOP,
        -1075 < x.shift <= 971,
        c > 0,
        x.shift >= 0 ==> f == 0 && c == 1 && a == x.digits as nat * two_to(x.shift as nat),
        x.shift < 0 ==> f == -x.shift && a == x.digits as nat * c && ten_to(f) == two_to(f) * c,
    ensures
        x.view().0 * c == a,
        x.view().1 * c == ten_to(f),
        0 < a < ten_to(f + 400),
{
    let d = x.digits as nat;
    lemma_far_power(400);
    lemma_ten_add(f, 400);
    lemma_ten_add(f, 0);
    if x.shift >= 0 {
        let t = two_to(x.shift as nat);
        lemma_two_add(x.shift as nat, 0);
        lemma_two_grows(x.shift as nat, 971);
        let m = two_to(971);
        assert(d * t * 1 == d * t);
        assert(0 < d * t <= TOP * m) by (nonlinear_arith)
            requires
                0 < d <= TOP,
                0 < t <= m,
        ;
        assert(TOP * m < ten_to(400)) by {
            lemma_far_strict();
        }
        assert(ten_to(0) == 1);
    } else {
        lemma_far_strict();
        lemma_two_add(f, 0);
        let m = two_to(971);
        let g = ten_to(400);
        assert(TOP <= TOP * m) by (nonlinear_arith)
            requires
                m >= 1,
        ;
        let h = two_to(f);
        assert(0 < d * c) by (nonlinear_arith)
            requires
                d > 0,
                c > 0,
        ;
        assert(d * c < (h * c) * g) by (nonlinear_arith)
            requires
                d < g,
                h > 0,
                c > 0,
        ;
    }
}

proof fn lemma_far_strict()
    ensures
        TOP * two_to(971) < ten_to(400),
        two_to(971) > 1,
{
    lemma_far_power(400);
    lemma_ten_large(400);
    lemma_two_add(53, 971);
    lemma_two_grows(1025, 1200);
    assert(two_to(1025) == 2 * two_to(1024));
    lemma_two_add(1024, 0);
    assert(two_to(53) == TOP) by {
        reveal_with_fuel(two_to, 54);
    }
}

fn whole_wide(v: &Vec<u8>, f: usize) -> (w: u64)
    requires
        f <= v@.len(),
        tidy(v@),
        above(v@, f as int) <= 20 * ENOUGH,
    ensures
        w == above(v@, f as int),
{
    let mut w: u64 = 0;
    let mut i: usize = v.len();
    while i > f
        invariant
            f <= i <= v@.len(),
            tidy(v@),
            above(v@, f as int) <= 20 * ENOUGH,
            w == above(v@, i as int),
            w <= 20 * ENOUGH,
        decreases i,
    {
        i -= 1;
        proof {
            assert(v@[i as int] < 10);
            lemma_above_falls(v@, f as int, i as int);
        }
        w = w * 10 + v[i] as u64;
    }
    w
}

proof fn lemma_above_falls(v: Seq<u8>, f: int, i: int)
    requires
        0 <= f <= i,
    ensures
        above(v, i) <= above(v, f),
    decreases i - f,
{
    if f < i {
        lemma_above_falls(v, f + 1, i);
    }
}

/// The fewest digits that are read as a number, and the unit that they count.
pub fn fewest_digits(x: Binary, larger: bool) -> (out: (u64, i32))
    requires
        0 < x.digits <= TOP,
        -1075 < x.shift <= 971,
    ensures
        (out.0 as nat, out.1 as int) == fewest(x.view(), FIRST_UNIT as int, larger),
        -1100 <= out.1 <= 400,
{
    let (v, f, Ghost(c)) = spelled(x);
    let ghost a = all_of(v@);
    let ghost xv = x.view();
    let mut e: i32 = FIRST_UNIT;
    proof {
        if f + 400 <= v@.len() {
            lemma_parts(v@, f + 400);
            let q = ten_to((f + 400) as nat);
            assert(0 * q == 0);
            lemma_fundamental_div_mod_converse(a as int, q as int, 0, a as int);
            lemma_above_falls(v@, f + 400, f + 401);
        }
    }
    loop
        invariant
            tidy(v@),
            f <= 1074,
            f <= v@.len(),
            x.digits <= TOP,
            -1075 < x.shift <= 971,
            c > 0,
            xv == x.view(),
            a == all_of(v@),
            a > 0,
            xv.0 * c == a,
            xv.1 * c == ten_to(f as nat),
            -(f as int) <= e <= 400,
            above(v@, f + e + 1) <= ENOUGH,
            fewest(xv, FIRST_UNIT as int, larger) == fewest(xv, e as int, larger),
        decreases e + f,
    {
        let g: i32 = f as i32 + e;
        proof {
            lemma_units(xv, e as int, a, f as nat, c);
            lemma_ten_add(g as nat, 0);
        }
        if g as u64 <= v.len() as u64 {
            let g: usize = g as usize;
            proof {
                lemma_parts(v@, g as int);
                if g < v@.len() {
                    assert(v@[g as int] < 10);
                }
            }
            let w: u64 = whole_wide(&v, g);
            let near: u64 = rounded(&v, g, w, larger);
            if only_zeros(&v, g) || near >= ENOUGH {
                return (near, e);
            }
            if near > 0 {
                if reads(near, e, x) {
                    return (near, e);
                }
                let other: u64 = if near > w {
                    w
                } else {
                    w + 1
                };
                if reads(other, e, x) {
                    return (other, e);
                }
            }
            assert(g > 0) by {
                if g == 0 {
                    assert(below(v@, 0) == 0);
                }
            }
        } else {
            proof {
                let q = ten_to(g as nat);
                lemma_below_small(v@, v@.len() as int);
                lemma_ten_add(v@.len(), (g - v@.len()) as nat);
                let s = ten_to(v@.len());
                let r = ten_to((g - v@.len()) as nat);
                lemma_ten_add((g - v@.len() - 1) as nat, 0);
                assert(r >= 10);
                assert(s * r >= s * 10) by (nonlinear_arith)
                    requires
                        r >= 10,
                ;
                lemma_nearest_none(a, q);
                assert(0 <= a < q);
                assert(0 * q == 0);
                lemma_fundamental_div_mod_converse(a as int, q as int, 0, a as int);
            }
        }
        e -= 1;
    }
}

} // verus!
