//! Working with JSON values: copying, changing and writing them, and reading and
//! writing texts in the form that `serde_json` gives them.

use crate::json::{
    first_member, json_text, jstr, lemma_view_arr, lemma_view_obj, member, members, parse_json,
    quoted, values, Json, JsonV,
};
use crate::double::{law_whole_part_is_kept, lemma_two_add, two_to, whole_size, Binary, TOP};
use crate::numbers::{all_figures, clamp64, figures, is_figure, read_number, signed_dec};
use crate::numeral::{
    approximate, lemma_dec_read, lemma_ten_positive, places, read_digits, ten_to, zeros_behind,
};
use crate::text::{
    ascii_lowercase, cap64, chars_of, dec, decimal, same, skip_chars, to_ascii_lower, trim, trimmed,
};
use vstd::prelude::*;

verus! {

// ------------------------------------------------------------------- texts of values

/// A JSON text as `serde_json` writes the value it stands for; where it stands for none,
/// what `serde_json` says of it.
pub uninterp spec fn canonical(text: Seq<char>) -> Result<Seq<char>, Seq<char>>;

/// Calls `serde_json::from_str`, which reads a JSON text into a `serde_json::Value`,
/// and writes what it has read, or why it could not be read, with `to_string`. The
/// result is a function of the text alone, and is named.
#[verifier::external_body]
fn canonical_json(text: &str) -> (out: Result<String, String>)
    ensures
        match out {
            Ok(t) => canonical(text@) == Ok::<Seq<char>, Seq<char>>(t@),
            Err(m) => canonical(text@) == Err::<Seq<char>, Seq<char>>(m@),
        },
{
    match serde_json::from_str::<serde_json::Value>(text) {
        Ok(v) => Ok(v.to_string()),
        Err(e) => Err(e.to_string()),
    }
}

/// The value that a text stands for, or why it stands for none.
pub open spec fn json_told(text: Seq<char>) -> Result<JsonV, Seq<char>> {
    match canonical(text) {
        Ok(t) => json_text(t),
        Err(m) => Err(m),
    }
}

/// The value that a text stands for, or why it stands for none.
pub fn try_json(text: &str) -> (out: Result<Json, String>)
    ensures
        match out {
            Ok(v) => json_told(text@) == Ok::<JsonV, Seq<char>>(v.view()),
            Err(m) => json_told(text@) == Err::<JsonV, Seq<char>>(m@),
        },
{
    match canonical_json(text) {
        Ok(t) => parse_json(t.as_str()),
        Err(m) => Err(m),
    }
}

/// The value that a text stands for.
pub open spec fn json_in(text: Seq<char>) -> Option<JsonV> {
    match json_told(text) {
        Ok(v) => Some(v),
        Err(_) => None,
    }
}

/// The value that a text stands for.
pub fn read_json(text: &str) -> (out: Option<Json>)
    ensures
        match out {
            Some(v) => json_in(text@) == Some(v.view()),
            None => json_in(text@) is None,
        },
{
    match try_json(text) {
        Ok(v) => Some(v),
        Err(_) => None,
    }
}

/// A value written without spaces.
pub open spec fn compact(v: JsonV) -> Seq<char>
    decreases v, 0int,
{
    match v {
        JsonV::Null => "null"@,
        JsonV::Bool(b) => if b {
            "true"@
        } else {
            "false"@
        },
        JsonV::Num(t) => t,
        JsonV::Str(t) => quoted(t),
        JsonV::Arr(a) => "["@ + compact_items(a, a.len() as int) + "]"@,
        JsonV::Obj(m) => "{"@ + compact_members(m, m.len() as int) + "}"@,
    }
}

/// The first `n` items of an array.
pub open spec fn compact_items(a: Seq<JsonV>, n: int) -> Seq<char>
    decreases a, n,
{
    if n <= 0 || n > a.len() {
        Seq::empty()
    } else {
        compact_items(a, n - 1) + (if n > 1 {
            ","@
        } else {
            Seq::empty()
        }) + compact(a[n - 1])
    }
}

/// The first `n` members of an object.
pub open spec fn compact_members(m: Seq<(Seq<char>, JsonV)>, n: int) -> Seq<char>
    decreases m, n,
{
    if n <= 0 || n > m.len() {
        Seq::empty()
    } else {
        compact_members(m, n - 1) + (if n > 1 {
            ","@
        } else {
            Seq::empty()
        }) + quoted(m[n - 1].0) + ":"@ + compact(m[n - 1].1)
    }
}

fn write_value(v: &Json, out: &mut String)
    ensures
        final(out)@ == old(out)@ + compact(v.view()),
    decreases v, 0int,
{
    let ghost start = out@;
    match v {
        Json::Null => {
            out.append("null");
        },
        Json::Bool(b) => {
            if *b {
                out.append("true");
            } else {
                out.append("false");
            }
        },
        Json::Num(t) => {
            out.append(t.as_str());
        },
        Json::Str(t) => {
            out.append(jstr(t.as_str()).as_str());
        },
        Json::Arr(a) => {
            proof {
                lemma_view_arr(*a);
            }
            out.append("[");
            write_items(a, out);
            out.append("]");
            assert(out@ =~= start + compact(v.view()));
        },
        Json::Obj(m) => {
            proof {
                lemma_view_obj(*m);
            }
            out.append("{");
            write_members(m, out);
            out.append("}");
            assert(out@ =~= start + compact(v.view()));
        },
    }
}

fn write_items(a: &Vec<Json>, out: &mut String)
    ensures
        final(out)@ == old(out)@ + compact_items(values(a@), a@.len() as int),
    decreases a, 0int,
{
    let ghost start = out@;
    let mut i: usize = 0;
    assert(start + compact_items(values(a@), 0) =~= start);
    while i < a.len()
        invariant
            i <= a@.len(),
            out@ == start + compact_items(values(a@), i as int),
        decreases a@.len() - i,
    {
        if i > 0 {
            out.append(",");
        }
        let x: &Json = &a[i];
        assert(values(a@)[i as int] == x.view());
        let ghost part = compact(x.view());
        write_value(x, out);
        i += 1;
        assert(out@ =~= start + compact_items(values(a@), i as int));
    }
}

fn write_members(m: &Vec<(String, Json)>, out: &mut String)
    ensures
        final(out)@ == old(out)@ + compact_members(members(m@), m@.len() as int),
    decreases m, 0int,
{
    let ghost start = out@;
    let mut i: usize = 0;
    assert(start + compact_members(members(m@), 0) =~= start);
    while i < m.len()
        invariant
            i <= m@.len(),
            out@ == start + compact_members(members(m@), i as int),
        decreases m@.len() - i,
    {
        if i > 0 {
            out.append(",");
        }
        let x: &(String, Json) = &m[i];
        assert(members(m@)[i as int] == (x.0@, x.1.view()));
        let ghost part = compact(x.1.view());
        out.append(jstr(x.0.as_str()).as_str());
        out.append(":");
        write_value(&x.1, out);
        i += 1;
        assert(out@ =~= start + compact_members(members(m@), i as int));
    }
}

/// A value written without spaces.
pub fn compact_text(v: &Json) -> (out: String)
    ensures
        out@ == compact(v.view()),
{
    let mut s: String = String::new();
    write_value(v, &mut s);
    assert(s@ =~= compact(v.view()));
    s
}

/// The text of a value as `serde_json` writes it; where `serde_json` would not read it,
/// because it is nested too deep, as it is.
pub open spec fn json_out(v: JsonV) -> Seq<char> {
    match canonical(compact(v)) {
        Ok(t) => t,
        Err(_) => compact(v),
    }
}

/// The text of a value as `serde_json` writes it.
pub fn write_json(v: &Json) -> (out: String)
    ensures
        out@ == json_out(v.view()),
{
    let plain: String = compact_text(v);
    match canonical_json(plain.as_str()) {
        Ok(t) => t,
        Err(_) => plain,
    }
}

// ---------------------------------------------------------------------------- copies

/// A copy of a value.
pub fn copy_json(v: &Json) -> (out: Json)
    ensures
        out.view() == v.view(),
    decreases v, 0int,
{
    match v {
        Json::Null => Json::Null,
        Json::Bool(b) => Json::Bool(*b),
        Json::Num(t) => Json::Num(t.clone()),
        Json::Str(t) => Json::Str(t.clone()),
        Json::Arr(a) => {
            let c: Vec<Json> = copy_items(a);
            proof {
                lemma_view_arr(*a);
                lemma_view_arr(c);
            }
            Json::Arr(c)
        },
        Json::Obj(m) => {
            let c: Vec<(String, Json)> = copy_members(m);
            proof {
                lemma_view_obj(*m);
                lemma_view_obj(c);
            }
            Json::Obj(c)
        },
    }
}

/// A copy of a list of values.
pub fn copy_items(a: &Vec<Json>) -> (out: Vec<Json>)
    ensures
        values(out@) == values(a@),
    decreases a, 0int,
{
    let mut out: Vec<Json> = Vec::new();
    let mut i: usize = 0;
    while i < a.len()
        invariant
            i <= a@.len(),
            out@.len() == i,
            forall|k: int| 0 <= k < i ==> (#[trigger] out@[k]).view() == a@[k].view(),
        decreases a@.len() - i,
    {
        let x: &Json = &a[i];
        out.push(copy_json(x));
        i += 1;
    }
    assert(values(out@) =~= values(a@));
    out
}

/// A copy of a list of members.
pub fn copy_members(m: &Vec<(String, Json)>) -> (out: Vec<(String, Json)>)
    ensures
        members(out@) == members(m@),
    decreases m, 0int,
{
    let mut out: Vec<(String, Json)> = Vec::new();
    let mut i: usize = 0;
    while i < m.len()
        invariant
            i <= m@.len(),
            out@.len() == i,
            forall|k: int|
                0 <= k < i ==> (#[trigger] out@[k]).0@ == m@[k].0@ && out@[k].1.view()
                    == m@[k].1.view(),
        decreases m@.len() - i,
    {
        let x: &(String, Json) = &m[i];
        out.push((x.0.clone(), copy_json(&x.1)));
        i += 1;
    }
    assert(members(out@) =~= members(m@));
    out
}

// --------------------------------------------------------------------------- changes

/// The position of the first member with a key, at or after `i`.
pub open spec fn key_at(m: Seq<(Seq<char>, JsonV)>, key: Seq<char>, i: int) -> int
    decreases m.len() - i,
{
    if i < 0 || i >= m.len() || m[i].0 == key {
        i
    } else {
        key_at(m, key, i + 1)
    }
}

/// Members with one more: in the place of the one with the same key, else at the
/// end.
pub open spec fn put(m: Seq<(Seq<char>, JsonV)>, key: Seq<char>, v: JsonV) -> Seq<
    (Seq<char>, JsonV),
> {
    let i = key_at(m, key, 0);
    if i < m.len() {
        m.update(i, (key, v))
    } else {
        m.push((key, v))
    }
}

/// An object with one more member; any other value as it is.
pub open spec fn with_member(o: JsonV, key: Seq<char>, v: JsonV) -> JsonV {
    match o {
        JsonV::Obj(m) => JsonV::Obj(put(m, key, v)),
        _ => o,
    }
}

/// An object with one more member; any other value as it is.
pub fn set_member(o: Json, key: &str, v: Json) -> (out: Json)
    ensures
        out.view() == with_member(o.view(), key@, v.view()),
{
    match o {
        Json::Obj(m) => {
            proof {
                lemma_view_obj(m);
            }
            let ghost mv = members(m@);
            let mut m: Vec<(String, Json)> = m;
            let mut i: usize = 0;
            while i < m.len() && !same(m[i].0.as_str(), key)
                invariant
                    i <= m@.len(),
                    mv == members(m@),
                    key_at(mv, key@, 0) == key_at(mv, key@, i as int),
                decreases m@.len() - i,
            {
                assert(mv[i as int].0 == m@[i as int].0@);
                i += 1;
            }
            if i < m.len() {
                assert(mv[i as int].0 == m@[i as int].0@);
                m.set(i, (key.to_owned(), v));
                assert(members(m@) =~= mv.update(i as int, (key@, v.view())));
            } else {
                m.push((key.to_owned(), v));
                assert(members(m@) =~= mv.push((key@, v.view())));
            }
            proof {
                lemma_view_obj(m);
            }
            Json::Obj(m)
        },
        _ => o,
    }
}

proof fn lemma_put_other(m: Seq<(Seq<char>, JsonV)>, key: Seq<char>, v: JsonV, other: Seq<char>)
    requires
        key != other,
    ensures
        first_member(put(m, key, v), other) == first_member(m, other),
    decreases m.len(),
{
    lemma_key_at(m, key, 0);
    let i = key_at(m, key, 0);
    if m.len() == 0 {
        assert(put(m, key, v) =~= seq![(key, v)]);
        assert(put(m, key, v).skip(1) =~= m);
        assert(first_member(put(m, key, v).skip(1), other) is None);
    } else {
        let rest = m.skip(1);
        if m[0].0 == key {
            assert(i == 0);
            assert(put(m, key, v).skip(1) =~= rest);
        } else {
            lemma_put_other(rest, key, v, other);
            lemma_key_at_skip(m, key, 1);
            lemma_key_at(rest, key, 0);
            let k = key_at(rest, key, 0);
            assert(i == k + 1);
            if i < m.len() {
                assert(m.update(i, (key, v)).skip(1) =~= rest.update(k, (key, v)));
            } else {
                assert(m.push((key, v)).skip(1) =~= rest.push((key, v)));
            }
            assert(put(m, key, v).skip(1) == put(rest, key, v));
            assert(put(m, key, v)[0] == m[0]);
        }
    }
}

proof fn lemma_key_at(m: Seq<(Seq<char>, JsonV)>, key: Seq<char>, i: int)
    requires
        0 <= i <= m.len(),
    ensures
        i <= key_at(m, key, i) <= m.len(),
    decreases m.len() - i,
{
    if i < m.len() && m[i].0 != key {
        lemma_key_at(m, key, i + 1);
    }
}

proof fn lemma_key_at_skip(m: Seq<(Seq<char>, JsonV)>, key: Seq<char>, i: int)
    requires
        1 <= i <= m.len(),
    ensures
        key_at(m, key, i) == key_at(m.skip(1), key, i - 1) + 1,
        i == 1 && m[0].0 != key ==> key_at(m, key, 0) == key_at(m, key, 1),
    decreases m.len() - i,
{
    if i < m.len() && m[i].0 != key {
        lemma_key_at_skip(m, key, i + 1);
    }
}

proof fn lemma_put_same(m: Seq<(Seq<char>, JsonV)>, key: Seq<char>, v: JsonV)
    ensures
        first_member(put(m, key, v), key) == Some(v),
    decreases m.len(),
{
    lemma_key_at(m, key, 0);
    let i = key_at(m, key, 0);
    if m.len() == 0 {
        assert(put(m, key, v)[0] == (key, v));
    } else if m[0].0 == key {
        assert(i == 0);
        assert(put(m, key, v)[0] == (key, v));
    } else {
        let rest = m.skip(1);
        lemma_put_same(rest, key, v);
        lemma_key_at_skip(m, key, 1);
        lemma_key_at(rest, key, 0);
        let k = key_at(rest, key, 0);
        assert(i == k + 1);
        if i < m.len() {
            assert(m.update(i, (key, v)).skip(1) =~= rest.update(k, (key, v)));
        } else {
            assert(m.push((key, v)).skip(1) =~= rest.push((key, v)));
        }
        assert(put(m, key, v).skip(1) == put(rest, key, v));
        assert(put(m, key, v)[0] == m[0]);
    }
}

/// A member that is set reads back as it was set, and all others stay as they are.
pub proof fn law_set_member(o: JsonV, key: Seq<char>, v: JsonV, other: Seq<char>)
    ensures
        o is Obj ==> member(with_member(o, key, v), key) == Some(v),
        key != other ==> member(with_member(o, key, v), other) == member(o, other),
        o is Obj ==> with_member(o, key, v) is Obj,
{
    match o {
        JsonV::Obj(m) => {
            lemma_put_same(m, key, v);
            if key != other {
                lemma_put_other(m, key, v, other);
            }
        },
        _ => {},
    }
}

/// The members of an object that is put together.
#[derive(Debug)]
pub struct Fields {
    pub list: Vec<(String, Json)>,
}

impl Fields {
    pub open spec fn view(self) -> Seq<(Seq<char>, JsonV)> {
        members(self.list@)
    }

    /// No members.
    pub fn new() -> (out: Self)
        ensures
            out.view() == Seq::<(Seq<char>, JsonV)>::empty(),
    {
        let out: Fields = Fields { list: Vec::new() };
        assert(out.view() =~= Seq::empty());
        out
    }

    /// One more member, at the end.
    pub fn with(self, key: &str, v: Json) -> (out: Self)
        ensures
            out.view() == self.view().push((key@, v.view())),
    {
        let ghost before = members(self.list@);
        let mut list: Vec<(String, Json)> = self.list;
        list.push((key.to_owned(), v));
        assert(members(list@) =~= before.push((key@, v.view())));
        Fields { list }
    }

    /// The object.
    pub fn object(self) -> (out: Json)
        ensures
            out.view() == JsonV::Obj(self.view()),
    {
        proof {
            lemma_view_obj(self.list);
        }
        Json::Obj(self.list)
    }
}

/// A text as a value.
pub fn jtext(s: &str) -> (out: Json)
    ensures
        out.view() == JsonV::Str(s@),
{
    Json::Str(s.to_owned())
}

/// A list of values as a value.
pub fn jarray(v: Vec<Json>) -> (out: Json)
    ensures
        out.view() == JsonV::Arr(values(v@)),
{
    proof {
        lemma_view_arr(v);
    }
    Json::Arr(v)
}

/// A count as a value.
pub fn jcount(n: u64) -> (out: Json)
    ensures
        out.view() == JsonV::Num(dec(n as nat)),
{
    Json::Num(decimal(n))
}

/// A number that may be negative as a value.
pub fn jint(n: i64) -> (out: Json)
    ensures
        out.view() == JsonV::Num(signed_dec(n as int)),
{
    if n < 0 {
        let mut s: String = "-".to_owned();
        s.append(decimal((-(n as i128)) as u64).as_str());
        Json::Num(s)
    } else {
        Json::Num(decimal(n as u64))
    }
}

/// The truth value of the member with a key, where it has one.
pub open spec fn bool_member(v: JsonV, key: Seq<char>) -> Option<bool> {
    match member(v, key) {
        Some(JsonV::Bool(b)) => Some(b),
        _ => None,
    }
}

impl Json {
    /// The truth value of the member with a key, where it has one.
    pub fn flag(&self, key: &str) -> (out: Option<bool>)
        ensures
            out == bool_member(self.view(), key@),
    {
        match self.get(key) {
            Some(Json::Bool(b)) => Some(*b),
            _ => None,
        }
    }
}

pub proof fn lemma_values_push(v: Seq<Json>, x: Json)
    ensures
        values(v.push(x)) == values(v).push(x.view()),
{
    assert(values(v.push(x)) =~= values(v).push(x.view()));
}

// --------------------------------------------------------------------------- numbers

/// The first position at or after `i` that holds no decimal digit.
pub open spec fn run_end(s: Seq<char>, i: int) -> int
    decreases s.len() - i,
{
    if i < 0 || i >= s.len() || !is_figure(s[i]) {
        i
    } else {
        run_end(s, i + 1)
    }
}

/// The position behind a sign at `i`, where there is one.
pub open spec fn after_sign(s: Seq<char>, i: int) -> int {
    if 0 <= i < s.len() && (s[i] == '+' || s[i] == '-') {
        i + 1
    } else {
        i
    }
}

/// A number as it is written: whether it is negative, its digits, and how many of
/// them stand before the point.
pub struct Written {
    pub negative: bool,
    pub digits: Seq<char>,
    pub point: int,
}

/// How large an exponent is taken for, at most.
pub const EXPONENT_CAP: u64 = 1_000_000;

/// The exponent that the digits from `a` to `b` make.
pub open spec fn exponent(s: Seq<char>, a: int, b: int) -> int {
    let e = figures(s.subrange(a, b), b - a);
    if e > EXPONENT_CAP {
        EXPONENT_CAP as int
    } else {
        e as int
    }
}

/// The digits from `b` to `i`, and those from behind the point at `i` to `j`.
pub open spec fn mantissa(s: Seq<char>, b: int, i: int, j: int) -> Seq<char> {
    s.subrange(b, i) + (if j > i {
        s.subrange(i + 1, j)
    } else {
        Seq::empty()
    })
}

/// The number that a text writes out: digits with or without a point, with or
/// without an exponent.
pub open spec fn written(s: Seq<char>) -> Option<Written> {
    let b = after_sign(s, 0);
    let i = run_end(s, b);
    let j = if i < s.len() && s[i] == '.' {
        run_end(s, i + 1)
    } else {
        i
    };
    let digits = mantissa(s, b, i, j);
    let negative = s.len() > 0 && s[0] == '-';
    if digits.len() == 0 {
        None
    } else if j == s.len() {
        Some(Written { negative, digits, point: i - b })
    } else if s[j] == 'e' || s[j] == 'E' {
        let a = after_sign(s, j + 1);
        let k = run_end(s, a);
        if k == a || k != s.len() {
            None
        } else {
            let e = exponent(s, a, k);
            Some(
                Written {
                    negative,
                    digits,
                    point: i - b + (if s[j + 1] == '-' {
                        -e
                    } else {
                        e
                    }),
                },
            )
        }
    } else {
        None
    }
}

/// A number as it is held: whether it is negative, and how far it lies from zero, as a
/// fraction; nothing for one that is not finite.
pub struct NumberV {
    pub negative: bool,
    pub size: Option<(nat, nat)>,
}

/// The number that is held for one that is written.
pub open spec fn held(w: Written) -> NumberV {
    NumberV { negative: w.negative, size: read_digits(w.digits, w.point) }
}

/// The number that a word stands for: one that is not finite.
pub open spec fn endless(s: Seq<char>) -> Option<NumberV> {
    let word = ascii_lowercase(s.skip(after_sign(s, 0)));
    if word == "inf"@ || word == "infinity"@ {
        Some(NumberV { negative: s.len() > 0 && s[0] == '-', size: None })
    } else {
        None
    }
}

/// The number that a value stands for: a number, a text that writes one, the truth values as
/// one and zero, and null as zero.
pub open spec fn number_of(v: Option<JsonV>) -> Option<NumberV> {
    match v {
        Some(JsonV::Num(t)) => match written(t) {
            Some(w) => Some(held(w)),
            None => None,
        },
        Some(JsonV::Str(t)) => match written(trimmed(t)) {
            Some(w) => Some(held(w)),
            None => endless(trimmed(t)),
        },
        Some(JsonV::Bool(b)) => Some(
            NumberV {
                negative: false,
                size: Some(
                    (
                        if b {
                            1
                        } else {
                            0
                        },
                        1,
                    ),
                ),
            },
        ),
        Some(JsonV::Null) => Some(NumberV { negative: false, size: Some((0, 1)) }),
        _ => None,
    }
}

/// Whether a number is zero.
pub open spec fn is_zero(n: NumberV) -> bool {
    n.size matches Some(x) && x.0 == 0
}

/// Whether a number is finite and not zero.
pub open spec fn counts(n: NumberV) -> bool {
    n.size is Some && !is_zero(n)
}

/// The whole part of a number, cut off at what 64 bits hold; zero for one that is not
/// finite.
pub open spec fn whole_part(n: NumberV) -> int {
    match n.size {
        Some(x) => clamp64(
            if n.negative {
                -(x.0 / x.1)
            } else {
                (x.0 / x.1) as int
            },
        ),
        None => 0,
    }
}

/// The whole number that a value stands for: its number is cut off at the point; zero where
/// it is not finite or there is none.
pub open spec fn whole_of(v: Option<JsonV>) -> int {
    match number_of(v) {
        Some(n) => whole_part(n),
        None => 0,
    }
}

fn find_run_end(v: &Vec<char>, from: usize) -> (out: usize)
    requires
        from <= v@.len(),
    ensures
        out == run_end(v@, from as int),
        from <= out <= v@.len(),
        forall|k: int| from <= k < out ==> is_figure(#[trigger] v@[k]),
{
    let mut i: usize = from;
    while i < v.len() && '0' <= v[i] && v[i] <= '9'
        invariant
            from <= i <= v@.len(),
            run_end(v@, from as int) == run_end(v@, i as int),
            forall|k: int| from <= k < i ==> is_figure(#[trigger] v@[k]),
        decreases v@.len() - i,
    {
        i += 1;
    }
    i
}

fn push_range(out: &mut Vec<char>, v: &Vec<char>, a: usize, b: usize)
    requires
        a <= b <= v@.len(),
    ensures
        final(out)@ == old(out)@ + v@.subrange(a as int, b as int),
{
    let ghost start = out@;
    let mut k: usize = a;
    assert(start + v@.subrange(a as int, a as int) =~= start);
    while k < b
        invariant
            a <= k <= b <= v@.len(),
            out@ == start + v@.subrange(a as int, k as int),
        decreases b - k,
    {
        out.push(v[k]);
        k += 1;
        assert(v@.subrange(a as int, k as int) =~= v@.subrange(a as int, k - 1).push(v@[k - 1]));
    }
}

proof fn lemma_digits(s: Seq<char>, b: int, i: int, j: int)
    requires
        0 <= b <= i <= j <= s.len(),
        forall|k: int| b <= k < i ==> is_figure(#[trigger] s[k]),
        forall|k: int| i < k < j ==> is_figure(#[trigger] s[k]),
    ensures
        forall|k: int|
            0 <= k < mantissa(s, b, i, j).len() ==> is_figure(#[trigger] mantissa(s, b, i, j)[k]),
{
    let d = mantissa(s, b, i, j);
    assert forall|k: int| 0 <= k < d.len() implies is_figure(#[trigger] d[k]) by {
        if k < i - b {
            assert(d[k] == s[b + k]);
        } else {
            assert(d[k] == s[i + 1 + (k - (i - b))]);
        }
    }
}

fn read_exponent(v: &Vec<char>, a: usize, b: usize) -> (out: u64)
    requires
        a <= b <= v@.len(),
        forall|k: int| a <= k < b ==> is_figure(#[trigger] v@[k]),
    ensures
        out == exponent(v@, a as int, b as int),
        out <= EXPONENT_CAP,
{
    let ghost d = v@.subrange(a as int, b as int);
    let mut n: u64 = 0;
    let mut i: usize = a;
    while i < b
        invariant
            a <= i <= b <= v@.len(),
            d == v@.subrange(a as int, b as int),
            forall|k: int| a <= k < b ==> is_figure(#[trigger] v@[k]),
            n <= EXPONENT_CAP,
            n == EXPONENT_CAP ==> figures(d, i - a) >= EXPONENT_CAP,
            n < EXPONENT_CAP ==> n == figures(d, i - a),
        decreases b - i,
    {
        let c: char = v[i];
        assert(d[i - a] == c);
        assert(is_figure(v@[i as int]));
        let x: u64 = (c as u32 - 48) as u64;
        let next: u64 = n * 10 + x;
        n = if next > EXPONENT_CAP {
            EXPONENT_CAP
        } else {
            next
        };
        i += 1;
    }
    n
}

/// A number as it is written, in executable form.
#[derive(Debug)]
pub struct Figures {
    pub negative: bool,
    pub digits: Vec<char>,
    pub point: i128,
}

#[verifier::spinoff_prover]
#[verifier::rlimit(30)]
fn read_written(t: &str) -> (out: Option<Figures>)
    ensures
        match out {
            Some(f) => written(t@) == Some(
                Written { negative: f.negative, digits: f.digits@, point: f.point as int },
            ) && (forall|k: int| 0 <= k < f.digits@.len() ==> is_figure(#[trigger] f.digits@[k]))
                && -0x100_0000_0000_0000_0000 <= f.point <= 0x100_0000_0000_0000_0000,
            None => written(t@) is None,
        },
{
    let v: Vec<char> = chars_of(t);
    let n: usize = v.len();
    let negative: bool = n > 0 && v[0] == '-';
    let b: usize = if n > 0 && (v[0] == '+' || v[0] == '-') {
        1
    } else {
        0
    };
    let i: usize = find_run_end(&v, b);
    let j: usize = if i < n && v[i] == '.' {
        find_run_end(&v, i + 1)
    } else {
        i
    };
    let mut digits: Vec<char> = Vec::new();
    push_range(&mut digits, &v, b, i);
    if j > i {
        push_range(&mut digits, &v, i + 1, j);
    }
    proof {
        lemma_digits(v@, b as int, i as int, j as int);
        assert(digits@ =~= mantissa(v@, b as int, i as int, j as int));
        assert(b == after_sign(v@, 0) && i == run_end(v@, b as int));
        assert(forall|k: int| 0 <= k < digits@.len() ==> is_figure(#[trigger] digits@[k]));
    }
    if digits.len() == 0 {
        assert(written(v@) is None);
        return None;
    }
    let whole: i128 = (i - b) as i128;
    if j == n {
        return Some(Figures { negative, digits, point: whole });
    }
    if v[j] == 'e' || v[j] == 'E' {
        let a: usize = if n - j > 1 && (v[j + 1] == '+' || v[j + 1] == '-') {
            j + 2
        } else {
            j + 1
        };
        let k: usize = find_run_end(&v, a);
        assert(a == after_sign(v@, j + 1) && k == run_end(v@, a as int));
        if k == a || k != n {
            assert(written(v@) is None);
            return None;
        }
        let e: i128 = read_exponent(&v, a, k) as i128;
        let point: i128 = if v[j + 1] == '-' {
            whole - e
        } else {
            whole + e
        };
        return Some(Figures { negative, digits, point });
    }
    None
}

/// A number as it is held, in executable form.
#[derive(Debug, Clone, Copy)]
pub struct Number {
    pub negative: bool,
    pub finite: bool,
    pub size: Binary,
}

impl Number {
    pub open spec fn view(self) -> NumberV {
        NumberV {
            negative: self.negative,
            size: if self.finite {
                Some(self.size.view())
            } else {
                None
            },
        }
    }

    pub open spec fn wf(self) -> bool {
        self.size.digits <= TOP && -1075 < self.size.shift <= 971
    }

    /// A whole number of one digit.
    pub fn small(n: u8) -> (out: Self)
        ensures
            out.wf(),
            out.view() == (NumberV { negative: false, size: Some((n as nat, 1)) }),
    {
        assert(n as nat * two_to(0) == n) by (nonlinear_arith)
            requires
                two_to(0) == 1,
        ;
        Number { negative: false, finite: true, size: Binary { digits: n as u64, shift: 0 } }
    }

    /// Whether the number is zero.
    pub fn is_zero(&self) -> (out: bool)
        ensures
            out == is_zero(self.view()),
            out == (self.finite && self.size.digits == 0),
    {
        proof {
            let s = self.size.shift;
            if s >= 0 {
                lemma_two_add(s as nat, 0);
                let t = two_to(s as nat);
                let d = self.size.digits as nat;
                assert((d * t == 0) == (d == 0)) by (nonlinear_arith)
                    requires
                        t > 0,
                ;
            }
        }
        self.finite && self.size.digits == 0
    }

    /// Whether the number is finite and not zero.
    pub fn counts(&self) -> (out: bool)
        ensures
            out == counts(self.view()),
            out ==> self.finite && self.size.digits > 0,
    {
        self.finite && !self.is_zero()
    }

    /// The whole part of the number.
    pub fn whole(&self) -> (out: i64)
        requires
            self.wf(),
        ensures
            out == whole_part(self.view()),
    {
        if !self.finite {
            return 0;
        }
        let w: u64 = whole_size(self.size);
        if self.negative {
            if w > 0x8000_0000_0000_0000 {
                i64::MIN
            } else {
                (-(w as i128)) as i64
            }
        } else if w > 0x7fff_ffff_ffff_ffff {
            i64::MAX
        } else {
            w as i64
        }
    }

    fn size_part(&self) -> (out: u64)
        requires
            self.wf(),
        ensures
            out == size_part(self.view()),
    {
        if self.negative {
            0
        } else if !self.finite {
            u64::MAX
        } else {
            whole_size(self.size)
        }
    }
}

fn hold(f: &Figures) -> (out: Number)
    requires
        all_figures(f.digits@),
        -0x100_0000_0000_0000_0000 <= f.point <= 0x100_0000_0000_0000_0000,
    ensures
        out.wf(),
        out.view() == held(
            Written { negative: f.negative, digits: f.digits@, point: f.point as int },
        ),
{
    match approximate(&f.digits, f.point) {
        Some(size) => Number { negative: f.negative, finite: true, size },
        None => Number {
            negative: f.negative,
            finite: false,
            size: Binary { digits: 0, shift: 0 },
        },
    }
}

fn read_endless(t: &str) -> (out: Option<Number>)
    ensures
        match out {
            Some(n) => n.wf() && endless(t@) == Some(n.view()),
            None => endless(t@) is None,
        },
{
    let v: Vec<char> = chars_of(t);
    let negative: bool = v.len() > 0 && v[0] == '-';
    let signed: bool = v.len() > 0 && (v[0] == '+' || v[0] == '-');
    let word: String = to_ascii_lower(
        skip_chars(
            t,
            if signed {
                1
            } else {
                0
            },
        ).as_str(),
    );
    if same(word.as_str(), "inf") || same(word.as_str(), "infinity") {
        Some(Number { negative, finite: false, size: Binary { digits: 0, shift: 0 } })
    } else {
        None
    }
}

/// The number that a value stands for.
pub fn read_number_of(v: Option<&Json>) -> (out: Option<Number>)
    ensures
        match out {
            Some(n) => n.wf() && number_of(
                match v {
                    Some(j) => Some(j.view()),
                    None => None,
                },
            ) == Some(n.view()),
            None => number_of(
                match v {
                    Some(j) => Some(j.view()),
                    None => None,
                },
            ) is None,
        },
{
    match v {
        Some(Json::Num(t)) => match read_written(t.as_str()) {
            Some(f) => Some(hold(&f)),
            None => None,
        },
        Some(Json::Str(t)) => {
            let s: String = trim(t.as_str());
            match read_written(s.as_str()) {
                Some(f) => Some(hold(&f)),
                None => read_endless(s.as_str()),
            }
        },
        Some(Json::Bool(b)) => Some(
            Number::small(
                if *b {
                    1
                } else {
                    0
                },
            ),
        ),
        Some(Json::Null) => Some(Number::small(0)),
        _ => None,
    }
}

/// The whole number that a value stands for.
pub fn whole_number(v: Option<&Json>) -> (out: i64)
    ensures
        out == whole_of(
            match v {
                Some(j) => Some(j.view()),
                None => None,
            },
        ),
{
    match read_number_of(v) {
        Some(n) => n.whole(),
        None => 0,
    }
}

/// The whole part of a number that is not negative, cut off at what 64 bits hold; zero
/// for a negative number.
pub open spec fn size_part(n: NumberV) -> int {
    if n.negative {
        0
    } else {
        match n.size {
            Some(x) => cap64(x.0 / x.1) as int,
            None => u64::MAX as int,
        }
    }
}

/// The size that a value stands for: its whole part, not negative; zero for what is no
/// number.
pub open spec fn size_of_value(v: Option<JsonV>) -> int {
    match number_of(v) {
        Some(n) => size_part(n),
        None => 0,
    }
}

/// The size that a value stands for, where it is a finite number that is not zero.
pub open spec fn given_size(v: Option<JsonV>) -> Option<int> {
    match number_of(v) {
        Some(n) => if counts(n) {
            Some(size_part(n))
        } else {
            None
        },
        None => None,
    }
}

/// The size that a value stands for.
pub fn size_in(v: Option<&Json>) -> (out: u64)
    ensures
        out == size_of_value(
            match v {
                Some(j) => Some(j.view()),
                None => None,
            },
        ),
{
    match read_number_of(v) {
        Some(n) => n.size_part(),
        None => 0,
    }
}

/// The size that a value stands for, where it is a finite number that is not zero.
pub fn size_given(v: Option<&Json>) -> (out: Option<u64>)
    ensures
        given_size(
            match v {
                Some(j) => Some(j.view()),
                None => None,
            },
        ) == (match out {
            Some(n) => Some(n as int),
            None => None,
        }),
{
    match read_number_of(v) {
        Some(n) => {
            if n.counts() {
                Some(n.size_part())
            } else {
                None
            }
        },
        None => None,
    }
}

/// The whole part of the number that a value stands for, if it is a finite one.
pub open spec fn finite_of(v: Option<JsonV>) -> Option<int> {
    match number_of(v) {
        Some(n) => if n.size is Some {
            Some(whole_part(n))
        } else {
            None
        },
        None => None,
    }
}

/// The whole part of the number that a value stands for, if it is a finite one.
pub fn finite_number(v: Option<&Json>) -> (out: Option<i64>)
    ensures
        finite_of(
            match v {
                Some(j) => Some(j.view()),
                None => None,
            },
        ) == (match out {
            Some(n) => Some(n as int),
            None => None,
        }),
{
    match read_number_of(v) {
        Some(n) => {
            if n.finite {
                Some(n.whole())
            } else {
                None
            }
        },
        None => None,
    }
}

/// Whether a number that is written is not zero.
pub open spec fn not_zero(t: Seq<char>) -> bool {
    match written(t) {
        Some(w) => !is_zero(held(w)),
        None => true,
    }
}

/// Whether a value counts as true: all but null, false, zero and the empty text.
pub open spec fn truthy(v: JsonV) -> bool {
    match v {
        JsonV::Null => false,
        JsonV::Bool(b) => b,
        JsonV::Num(t) => not_zero(t),
        JsonV::Str(t) => t.len() > 0,
        _ => true,
    }
}

/// Whether a value counts as true.
pub fn js_truthy(v: &Json) -> (out: bool)
    ensures
        out == truthy(v.view()),
{
    match v {
        Json::Null => false,
        Json::Bool(b) => *b,
        Json::Num(t) => match read_written(t.as_str()) {
            Some(f) => !hold(&f).is_zero(),
            None => true,
        },
        Json::Str(t) => t.as_str().unicode_len() > 0,
        _ => true,
    }
}

/// The number that a value is, where it is written without point and exponent and
/// fits in 64 bits with a sign.
pub open spec fn integer_of(v: Option<JsonV>) -> Option<int> {
    match v {
        Some(JsonV::Num(t)) => {
            let negative = t.len() > 0 && t[0] == '-';
            let d = if negative {
                t.skip(1)
            } else {
                t
            };
            let n = figures(d, d.len() as int);
            if d.len() == 0 || !all_figures(d) {
                None
            } else if negative {
                if n <= 0x8000_0000_0000_0000 {
                    Some(-n)
                } else {
                    None
                }
            } else if n <= 0x7fff_ffff_ffff_ffff {
                Some(n as int)
            } else {
                None
            }
        },
        _ => None,
    }
}

/// The number that a value is, where it is a whole one.
pub fn integer(v: Option<&Json>) -> (out: Option<i64>)
    ensures
        match out {
            Some(n) => integer_of(
                match v {
                    Some(j) => Some(j.view()),
                    None => None,
                },
            ) == Some(n as int),
            None => integer_of(
                match v {
                    Some(j) => Some(j.view()),
                    None => None,
                },
            ) is None,
        },
{
    match v {
        Some(Json::Num(t)) => {
            let v: Vec<char> = chars_of(t.as_str());
            let negative: bool = v.len() > 0 && v[0] == '-';
            let digits: String = if negative {
                skip_chars(t.as_str(), 1)
            } else {
                t.clone()
            };
            let ghost d = digits@;
            let start: usize = if negative {
                1
            } else {
                0
            };
            if v.len() > start && v[start] == '+' {
                assert(!is_figure(d[0]));
                return None;
            }
            match read_number(digits.as_str()) {
                Some(n) => {
                    if negative {
                        if n <= 0x8000_0000_0000_0000 {
                            Some((-(n as i128)) as i64)
                        } else {
                            None
                        }
                    } else if n <= 0x7fff_ffff_ffff_ffff {
                        Some(n as i64)
                    } else {
                        None
                    }
                },
                None => None,
            }
        },
        _ => None,
    }
}

// -------------------------------------------------------------------------------- laws

proof fn lemma_run_end(s: Seq<char>, i: int)
    requires
        0 <= i <= s.len(),
        forall|k: int| i <= k < s.len() ==> is_figure(#[trigger] s[k]),
    ensures
        run_end(s, i) == s.len(),
    decreases s.len() - i,
{
    if i < s.len() {
        lemma_run_end(s, i + 1);
    }
}

/// A whole number of no more than 53 binary digits is read as it was written.
pub proof fn law_whole_number_is_kept(n: int)
    requires
        -(TOP as int) <= n <= TOP,
    ensures
        number_of(Some(JsonV::Num(signed_dec(n)))) == Some(
            NumberV {
                negative: n < 0,
                size: Some(
                    (
                        if n < 0 {
                            (-n) as nat
                        } else {
                            n as nat
                        },
                        1,
                    ),
                ),
            },
        ),
        finite_of(Some(JsonV::Num(signed_dec(n)))) == Some(n),
{
    let m = if n < 0 {
        (-n) as nat
    } else {
        n as nat
    };
    let d = dec(m);
    let s = signed_dec(n);
    lemma_dec_read(m);
    reveal_strlit("-");
    let b: int = if n < 0 {
        1
    } else {
        0
    };
    assert(s.len() == d.len() + b);
    assert forall|k: int| b <= k < s.len() implies is_figure(#[trigger] s[k]) by {
        assert(s[k] == d[k - b]);
        assert(is_figure(d[k - b]));
    }
    assert(is_figure(s[b]));
    assert(n < 0 ==> s[0] == '-');
    assert(after_sign(s, 0) == b);
    lemma_run_end(s, b);
    assert(mantissa(s, b, s.len() as int, s.len() as int) =~= d);
    assert(written(s) == Some(Written { negative: n < 0, digits: d, point: d.len() as int }));
    assert(ten_to(0) == 1);
    assert(m * ten_to(0) == m) by (nonlinear_arith)
        requires
            ten_to(0) == 1,
    ;
    assert(m % 1 == 0 && m / 1 == m);
}

/// A number whose digits make no more than 53 binary digits keeps its whole part, and is
/// whole only where it was written so, unless it is smaller than every number.
pub proof fn law_short_number_is_cut_off(w: Written)
    requires
        figures(w.digits, w.digits.len() as int) * ten_to(zeros_behind(w.digits, w.point)) < TOP,
    ensures
        ({
            let p = figures(w.digits, w.digits.len() as int) * ten_to(
                zeros_behind(w.digits, w.point),
            );
            let q = ten_to(places(w.digits, w.point));
            &&& whole_part(held(w)) == (if w.negative {
                -(p / q)
            } else {
                (p / q) as int
            })
            &&& held(w).size matches Some(x) && (q <= two_to(1074) ==> (x.0 % x.1 == 0) == (p % q
                == 0))
        }),
{
    let p = figures(w.digits, w.digits.len() as int) * ten_to(zeros_behind(w.digits, w.point));
    let q = ten_to(places(w.digits, w.point));
    lemma_ten_positive(places(w.digits, w.point));
    law_whole_part_is_kept(p, q);
    assert(p / q <= p) by (nonlinear_arith)
        requires
            q > 0,
    ;
}

} // verus!
