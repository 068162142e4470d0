//! Versions of rules: numbers, how they compare and how they are shown.

use crate::double::{is_integral, size_less, whole_size, Binary, TOP};
use crate::json::{Json, JsonV};
use crate::numeral::{fewest, fewest_digits, lemma_dec_read, ten_to, FIRST_UNIT};
use crate::text::{cat, chars_of, dec, decimal, string_of};
use crate::value::{is_zero, number_of, read_number_of, Number, NumberV};
use vstd::prelude::*;

verus! {

// --------------------------------------------------------------------------- the numbers

/// Whether a number lies nearer to zero than another.
pub open spec fn magnitude_below(a: NumberV, b: NumberV) -> bool {
    match (a.size, b.size) {
        (Some(x), Some(y)) => x.0 * y.1 < y.0 * x.1,
        (Some(_), None) => true,
        (None, _) => false,
    }
}

/// Whether a number is smaller than another.
pub open spec fn below(a: NumberV, b: NumberV) -> bool {
    if a.negative && b.negative {
        magnitude_below(b, a)
    } else if a.negative {
        !(is_zero(a) && is_zero(b))
    } else if b.negative {
        false
    } else {
        magnitude_below(a, b)
    }
}

/// Zero.
pub open spec fn nothing() -> NumberV {
    NumberV { negative: false, size: Some((0, 1)) }
}

/// The version that a value stands for: its number, zero where there is none or it is not
/// finite.
pub open spec fn version_of(v: Option<JsonV>) -> NumberV {
    match number_of(v) {
        Some(n) => if n.size is Some {
            n
        } else {
            nothing()
        },
        None => nothing(),
    }
}

/// The larger of two versions.
pub open spec fn later(a: NumberV, b: NumberV) -> NumberV {
    if below(a, b) {
        b
    } else {
        a
    }
}

/// The version below which no rules are taken again, by what was put down: zero where that
/// is no positive number.
pub open spec fn mark_of(v: Option<JsonV>) -> NumberV {
    if below(nothing(), version_of(v)) {
        version_of(v)
    } else {
        nothing()
    }
}

// ------------------------------------------------------------------------------ the text

/// Zeros.
pub open spec fn zeros(n: nat) -> Seq<char> {
    Seq::new(n, |i: int| '0')
}

/// So many units of ten to the power `e` in digits, without an exponent.
pub open spec fn plain(n: nat, e: int) -> Seq<char> {
    if e >= 0 {
        dec(n) + zeros(e as nat)
    } else {
        let d = dec(n);
        let s = if d.len() <= -e {
            zeros((-e - d.len() + 1) as nat) + d
        } else {
            d
        };
        s.take(s.len() + e) + "."@ + s.skip(s.len() + e)
    }
}

/// Whole numbers from this on are written with the fewest digits and zeros behind them.
pub const LONG_FROM: u64 = 9_000_000_000_000_000;

/// A number that is not negative, as it is shown: a whole one with all its digits, another
/// with the fewest that are read as it, where `larger` tells which of two equally near.
pub open spec fn shown_size(x: (nat, nat), larger: bool) -> Seq<char> {
    if x.0 % x.1 == 0 && x.0 / x.1 < LONG_FROM {
        dec(x.0 / x.1)
    } else {
        let (n, e) = fewest(x, FIRST_UNIT as int, larger);
        plain(n, e)
    }
}

/// A number as it is shown.
pub open spec fn shown_version(n: NumberV) -> Seq<char> {
    match n.size {
        Some(x) => if x.0 == 0 {
            "0"@
        } else if n.negative {
            "-"@ + shown_size(x, true)
        } else {
            shown_size(x, true)
        },
        None => "NaN"@,
    }
}

/// So many units of ten to the power `e` with a point or an exponent: very large and very
/// small numbers have one.
pub open spec fn pointed_units(n: nat, e: int) -> Seq<char> {
    let d = dec(n);
    let first = d.len() + e - 1;
    if -5 <= first <= 15 {
        plain(n, e) + (if e >= 0 {
            ".0"@
        } else {
            Seq::empty()
        })
    } else {
        d.take(1) + (if d.len() > 1 {
            "."@ + d.skip(1)
        } else {
            Seq::empty()
        }) + (if first < 0 {
            "e-"@ + dec((-first) as nat)
        } else {
            "e+"@ + dec(first as nat)
        })
    }
}

/// A number as it stands in a value that holds numbers with a point, whole or not.
pub open spec fn pointed(n: NumberV) -> Seq<char> {
    match n.size {
        Some(x) => (if n.negative {
            "-"@
        } else {
            Seq::empty()
        }) + (if x.0 == 0 {
            "0.0"@
        } else {
            let (k, e) = fewest(x, FIRST_UNIT as int, false);
            pointed_units(k, e)
        }),
        None => "null"@,
    }
}

/// A version as it stands in a value.
pub open spec fn version_value(n: NumberV) -> JsonV {
    JsonV::Num(pointed(n))
}

fn pointed_text(n: u64, e: i32) -> (out: String)
    requires
        -1100 <= e <= 400,
    ensures
        out@ == pointed_units(n as nat, e as int),
{
    let d: String = decimal(n);
    let chars: Vec<char> = chars_of(d.as_str());
    proof {
        lemma_dec_read(n as nat);
        assert(ten_to(20) > u64::MAX) by {
            reveal_with_fuel(ten_to, 21);
        }
        lemma_dec_length(n as nat, 20);
    }
    let first: i32 = chars.len() as i32 + e - 1;
    if -5 <= first && first <= 15 {
        let mut out: String = plain_text(n, e);
        if e >= 0 {
            out.append(".0");
        }
        assert(out@ =~= pointed_units(n as nat, e as int));
        return out;
    }
    let mut out: String = string_of(&chars, 0, 1);
    if chars.len() > 1 {
        out.append(".");
        out.append(string_of(&chars, 1, chars.len()).as_str());
    }
    if first < 0 {
        out.append("e-");
        out.append(decimal((-first) as u64).as_str());
    } else {
        out.append("e+");
        out.append(decimal(first as u64).as_str());
    }
    assert(out@ =~= pointed_units(n as nat, e as int));
    out
}

proof fn lemma_dec_length(n: nat, k: nat)
    requires
        n < ten_to(k),
        k > 0,
    ensures
        dec(n).len() <= k,
    decreases k,
{
    if n >= 10 {
        lemma_dec_length(n / 10, (k - 1) as nat);
    }
}

fn push_zeros(n: i32, out: &mut String)
    ensures
        final(out)@ == old(out)@ + zeros(
            if n > 0 {
                n as nat
            } else {
                0
            },
        ),
{
    let ghost start = out@;
    let mut i: i32 = 0;
    assert(start + zeros(0) =~= start);
    while i < n
        invariant
            0 <= i,
            i <= n || i == 0,
            out@ == start + zeros(i as nat),
        decreases n - i,
    {
        out.push('0');
        i += 1;
        assert(start + zeros(i as nat) =~= (start + zeros((i - 1) as nat)).push('0'));
    }
}

fn plain_text(n: u64, e: i32) -> (out: String)
    requires
        -1100 <= e <= 400,
    ensures
        out@ == plain(n as nat, e as int),
{
    let d: String = decimal(n);
    if e >= 0 {
        let mut out: String = d;
        push_zeros(e, &mut out);
        return out;
    }
    let chars: Vec<char> = chars_of(d.as_str());
    let mut s: String = String::new();
    if chars.len() <= (-e) as usize {
        push_zeros(-e - chars.len() as i32 + 1, &mut s);
    }
    s.append(d.as_str());
    proof {
        let len = d@.len();
        if len <= -e {
            assert(s@ =~= zeros((-e - len + 1) as nat) + d@);
        } else {
            assert(s@ =~= d@);
        }
    }
    let all: Vec<char> = chars_of(s.as_str());
    assert(all@.len() > -e);
    let at: usize = all.len() - (-e) as usize;
    let mut out: String = string_of(&all, 0, at);
    out.append(".");
    out.append(string_of(&all, at, all.len()).as_str());
    assert(out@ =~= plain(n as nat, e as int));
    out
}

/// A number that is not negative, as it is shown.
pub fn size_text(x: Binary, larger: bool) -> (out: String)
    requires
        0 < x.digits <= TOP,
        -1075 < x.shift <= 971,
    ensures
        out@ == shown_size(x.view(), larger),
{
    let w: u64 = whole_size(x);
    if is_integral(x) && w < LONG_FROM {
        return decimal(w);
    }
    let (n, e) = fewest_digits(x, larger);
    plain_text(n, e)
}

// ------------------------------------------------------------------------------ versions

/// A version.
#[derive(Debug)]
pub struct Version {
    number: Number,
}

impl Version {
    /// The number that the version is.
    pub closed spec fn view(self) -> NumberV {
        self.number.view()
    }

    #[verifier::type_invariant]
    spec fn bounded(self) -> bool {
        self.number.wf() && self.number.finite
    }

    /// The version before all others.
    pub fn none() -> (out: Self)
        ensures
            out.view() == nothing(),
    {
        Version { number: Number::small(0) }
    }

    /// The version that a value stands for.
    pub fn read(v: Option<&Json>) -> (out: Self)
        ensures
            out.view() == version_of(
                match v {
                    Some(j) => Some(j.view()),
                    None => None,
                },
            ),
    {
        match read_number_of(v) {
            Some(number) => {
                if number.finite {
                    Version { number }
                } else {
                    Version::none()
                }
            },
            None => Version::none(),
        }
    }

    /// The version below which no rules are taken again, by what was put down.
    pub fn read_mark(v: Option<&Json>) -> (out: Self)
        ensures
            out.view() == mark_of(
                match v {
                    Some(j) => Some(j.view()),
                    None => None,
                },
            ),
    {
        let found: Version = Version::read(v);
        let none: Version = Version::none();
        if none.is_below(&found) {
            found
        } else {
            none
        }
    }

    /// The larger of two versions.
    pub fn later(self, other: Version) -> (out: Self)
        ensures
            out.view() == later(self.view(), other.view()),
    {
        if self.is_below(&other) {
            other
        } else {
            self
        }
    }

    /// Whether the version is smaller than another.
    pub fn is_below(&self, other: &Version) -> (out: bool)
        ensures
            out == below(self.view(), other.view()),
    {
        proof {
            use_type_invariant(self);
            use_type_invariant(other);
        }
        let a: Number = self.number;
        let b: Number = other.number;
        if a.negative && b.negative {
            size_less(b.size, a.size)
        } else if a.negative {
            !(a.is_zero() && b.is_zero())
        } else if b.negative {
            false
        } else {
            size_less(a.size, b.size)
        }
    }

    /// The version as it stands in a value.
    pub fn value(&self) -> (out: Json)
        ensures
            out.view() == version_value(self.view()),
    {
        proof {
            use_type_invariant(self);
        }
        let n: Number = self.number;
        let size: String = if n.is_zero() {
            "0.0".to_owned()
        } else {
            let (k, e) = fewest_digits(n.size, false);
            pointed_text(k, e)
        };
        let s: String = if n.negative {
            cat("-", size.as_str())
        } else {
            size
        };
        assert(s@ =~= pointed(self.view()));
        Json::Num(s)
    }

    /// The version as it is shown.
    pub fn text(&self) -> (out: String)
        ensures
            out@ == shown_version(self.view()),
    {
        proof {
            use_type_invariant(self);
        }
        let n: Number = self.number;
        if n.is_zero() {
            return "0".to_owned();
        }
        let s: String = size_text(n.size, true);
        if n.negative {
            cat("-", s.as_str())
        } else {
            s
        }
    }
}

// ------------------------------------------------------------------------------ laws

/// Of two versions at most one is the smaller, and none is smaller than itself.
pub proof fn law_one_is_below(a: NumberV, b: NumberV)
    ensures
        !(below(a, b) && below(b, a)),
        !below(a, a),
{
}

/// The later of two versions is below neither of them.
pub proof fn law_later(a: NumberV, b: NumberV)
    ensures
        !below(later(a, b), a),
        !below(later(a, b), b),
{
    law_one_is_below(a, b);
    law_one_is_below(b, b);
}

} // verus!
