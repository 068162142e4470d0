//! What is written without spaces is read back.

use crate::json::{
    blank, digits_end, escaped, is_digit, items_at, json_text, lemma_string_of_escape, members_at,
    number_char, number_end, number_text, quoted, sign_at, skip_blanks, string_rest, value_at,
    JsonV,
};
use crate::text::occurs_at;
use crate::value::{compact, compact_items, compact_members};
use vstd::prelude::*;

verus! {

/// Whether every number in a value is written as a decimal number.
pub open spec fn plain_numbers(v: JsonV) -> bool
    decreases v,
{
    match v {
        JsonV::Num(t) => number_text(t),
        JsonV::Arr(a) => forall|i: int| 0 <= i < a.len() ==> plain_numbers(#[trigger] a[i]),
        JsonV::Obj(m) => forall|i: int| 0 <= i < m.len() ==> plain_numbers((#[trigger] m[i]).1),
        _ => true,
    }
}

proof fn lemma_digits_run(t: Seq<char>, i: int)
    requires
        0 <= i <= t.len(),
    ensures
        i <= digits_end(t, i) <= t.len(),
        forall|k: int| i <= k < digits_end(t, i) ==> is_digit(#[trigger] t[k]),
    decreases t.len() - i,
{
    if i < t.len() && is_digit(t[i]) {
        lemma_digits_run(t, i + 1);
    }
}

/// A decimal number is made of number characters, one at least.
proof fn lemma_number_chars(t: Seq<char>)
    requires
        number_text(t),
    ensures
        t.len() > 0,
        forall|k: int| 0 <= k < t.len() ==> number_char(#[trigger] t[k]),
{
    let a = if sign_at(t, 0) {
        1int
    } else {
        0
    };
    lemma_digits_run(t, a);
    let b = digits_end(t, a);
    let point = b < t.len() && t[b] == '.';
    let c = if point {
        digits_end(t, b + 1)
    } else {
        b
    };
    if point {
        lemma_digits_run(t, b + 1);
    }
    let d = if sign_at(t, c + 1) {
        c + 2
    } else {
        c + 1
    };
    if c < t.len() {
        lemma_digits_run(t, d);
    }
    assert forall|k: int| 0 <= k < t.len() implies number_char(#[trigger] t[k]) by {
        if k < a {
        } else if k < b {
            assert(is_digit(t[k]));
        } else if k < c {
        } else if k >= d {
            assert(is_digit(t[k]));
        }
    }
}

proof fn lemma_number_stops(s: Seq<char>, i: int, j: int)
    requires
        0 <= i <= j <= s.len(),
        forall|k: int| i <= k < j ==> number_char(#[trigger] s[k]),
        j < s.len() ==> !number_char(s[j]),
    ensures
        number_end(s, i) == j,
    decreases j - i,
{
    if i < j {
        assert(number_char(s[i]));
        lemma_number_stops(s, i + 1, j);
    }
}

/// Fewer items are written at the front of more, and a comma divides them.
proof fn lemma_items_front(a: Seq<JsonV>, k: int, n: int)
    requires
        0 <= k <= n <= a.len(),
    ensures
        compact_items(a, k).len() <= compact_items(a, n).len(),
        compact_items(a, n).take(compact_items(a, k).len() as int) == compact_items(a, k),
        0 < k < n ==> compact_items(a, k).len() < compact_items(a, n).len() && compact_items(
            a,
            n,
        )[compact_items(a, k).len() as int] == ',',
    decreases n - k,
{
    let front = compact_items(a, k);
    let whole = compact_items(a, n);
    reveal_strlit(",");
    if k < n {
        lemma_items_front(a, k, n - 1);
        let less = compact_items(a, n - 1);
        assert(whole.take(front.len() as int) =~= less.take(front.len() as int));
        if 0 < k {
            if k == n - 1 {
                assert(whole[front.len() as int] == ","@[0]);
            } else {
                assert(whole[front.len() as int] == less[front.len() as int]);
            }
        }
    } else {
        assert(whole.take(front.len() as int) =~= front);
    }
}

/// Fewer members are written at the front of more, and a comma divides them.
proof fn lemma_members_front(m: Seq<(Seq<char>, JsonV)>, k: int, n: int)
    requires
        0 <= k <= n <= m.len(),
    ensures
        compact_members(m, k).len() <= compact_members(m, n).len(),
        compact_members(m, n).take(compact_members(m, k).len() as int) == compact_members(m, k),
        0 < k < n ==> compact_members(m, k).len() < compact_members(m, n).len() && compact_members(
            m,
            n,
        )[compact_members(m, k).len() as int] == ',',
    decreases n - k,
{
    let front = compact_members(m, k);
    let whole = compact_members(m, n);
    reveal_strlit(",");
    if k < n {
        lemma_members_front(m, k, n - 1);
        let less = compact_members(m, n - 1);
        assert(whole.take(front.len() as int) =~= less.take(front.len() as int));
        if 0 < k {
            if k == n - 1 {
                assert(whole[front.len() as int] == ","@[0]);
            } else {
                assert(whole[front.len() as int] == less[front.len() as int]);
            }
        }
    } else {
        assert(whole.take(front.len() as int) =~= front);
    }
}

/// What a value starts with where it is written: no blank, and nothing that closes or
/// divides.
proof fn lemma_first_char(v: JsonV)
    requires
        plain_numbers(v),
    ensures
        compact(v).len() > 0,
        !blank(compact(v)[0]),
        compact(v)[0] != ']' && compact(v)[0] != '}',
{
    reveal_strlit("null");
    reveal_strlit("true");
    reveal_strlit("false");
    reveal_strlit("[");
    reveal_strlit("{");
    if let JsonV::Num(t) = v {
        lemma_number_chars(t);
        assert(number_char(t[0]));
    }
}

/// A part of a text stands where the part that holds it does.
proof fn lemma_within(s: Seq<char>, w: Seq<char>, i: int, from: int, to: int)
    requires
        0 <= i,
        occurs_at(s, w, i),
        0 <= from <= to <= w.len(),
    ensures
        occurs_at(s, w.subrange(from, to), i + from),
        from < to ==> s[i + from] == w[from],
{
    assert(s.subrange(i + from, i + to) =~= s.subrange(i, i + w.len()).subrange(from, to));
    if from < to {
        assert(s.subrange(i, i + w.len())[from] == s[i + from]);
    }
}

/// A value that stands written in a text is read there, whatever follows, unless a number
/// is followed by more of a number.
proof fn lemma_read_written(s: Seq<char>, i: int, v: JsonV)
    requires
        0 <= i,
        plain_numbers(v),
        occurs_at(s, compact(v), i),
        i + compact(v).len() < s.len() ==> !number_char(s[i + compact(v).len()]),
    ensures
        value_at(s, i) == Ok::<(JsonV, int), Seq<char>>((v, i + compact(v).len())),
    decreases v, 0int,
{
    let w = compact(v);
    let n = w.len() as int;
    lemma_first_char(v);
    lemma_within(s, w, i, 0, n);
    assert(w.subrange(0, n) =~= w);
    assert(s[i] == w[0]);
    assert(skip_blanks(s, i) == i);
    reveal_strlit("null");
    reveal_strlit("true");
    reveal_strlit("false");
    reveal_strlit("[");
    reveal_strlit("]");
    reveal_strlit("{");
    reveal_strlit("}");
    match v {
        JsonV::Null => {},
        JsonV::Bool(b) => {},
        JsonV::Num(t) => {
            lemma_number_chars(t);
            assert forall|k: int| i <= k < i + n implies number_char(#[trigger] s[k]) by {
                assert(s.subrange(i, i + n)[k - i] == s[k]);
                assert(number_char(t[k - i]));
            }
            lemma_number_stops(s, i, i + n);
            assert(number_char(t[0]));
        },
        JsonV::Str(t) => {
            lemma_within(s, w, i, 1, n);
            assert(w.subrange(1, n) =~= escaped(t).push('"'));
            lemma_string_of_escape(s, i + 1, t, Seq::empty());
            assert(Seq::<char>::empty() + t =~= t);
        },
        JsonV::Arr(a) => {
            let c = compact_items(a, a.len() as int);
            lemma_within(s, w, i, 1, n);
            assert(w.subrange(1, n) =~= c + "]"@);
            if a.len() == 0 {
                assert(a =~= Seq::empty());
            } else {
                lemma_items_front(a, 1, a.len() as int);
                lemma_first_char(a[0]);
                assert(compact_items(a, 0) =~= Seq::empty());
                assert(compact_items(a, 1) =~= compact(a[0]));
                assert(c.take(compact(a[0]).len() as int)[0] == c[0]);
                assert(s[i + 1] == c[0]);
                assert(a.take(0) =~= Seq::empty());
                lemma_read_items(s, i + 1, a, 0);
            }
        },
        JsonV::Obj(m) => {
            let c = compact_members(m, m.len() as int);
            lemma_within(s, w, i, 1, n);
            assert(w.subrange(1, n) =~= c + "}"@);
            if m.len() == 0 {
                assert(m =~= Seq::empty());
            } else {
                lemma_members_front(m, 1, m.len() as int);
                assert(compact_members(m, 0) =~= Seq::empty());
                let first = compact_members(m, 1);
                assert(first[0] == '"');
                assert(c.take(first.len() as int)[0] == c[0]);
                assert(s[i + 1] == c[0]);
                assert(m.take(0) =~= Seq::empty());
                lemma_read_members(s, i + 1, m, 0);
            }
        },
    }
}

/// The items from the `k`th on are read where they stand written.
proof fn lemma_read_items(s: Seq<char>, i: int, a: Seq<JsonV>, k: int)
    requires
        0 <= i,
        0 <= k < a.len(),
        forall|j: int| 0 <= j < a.len() ==> plain_numbers(#[trigger] a[j]),
        occurs_at(s, compact_items(a, a.len() as int) + "]"@, i),
    ensures
        ({
            let at = i + compact_items(a, k).len() + (if k > 0 {
                1int
            } else {
                0
            });
            let end = i + compact_items(a, a.len() as int).len() + 1;
            items_at(s, at, a.take(k)) == Ok::<(JsonV, int), Seq<char>>((JsonV::Arr(a), end))
        }),
    decreases a, a.len() - k,
{
    let n = a.len() as int;
    let c = compact_items(a, n);
    let w = c + "]"@;
    let from = compact_items(a, k).len() + (if k > 0 {
        1int
    } else {
        0
    });
    let to = compact_items(a, k + 1).len() as int;
    reveal_strlit("]");
    reveal_strlit(",");
    lemma_items_front(a, k, n);
    lemma_items_front(a, k + 1, n);
    assert(to == from + compact(a[k]).len());
    assert(w.subrange(from, to) =~= compact(a[k])) by {
        assert(c.take(to).subrange(from, to) =~= compact(a[k]));
    }
    lemma_within(s, w, i, from, to);
    lemma_within(s, w, i, to, w.len() as int);
    assert(s[i + to] == w[to]);
    assert(w[to] == (if k + 1 < n {
        ','
    } else {
        ']'
    }));
    lemma_read_written(s, i + from, a[k]);
    assert(skip_blanks(s, i + to) == i + to);
    assert(a.take(k).push(a[k]) =~= a.take(k + 1));
    if k + 1 < n {
        lemma_read_items(s, i, a, k + 1);
    } else {
        assert(a.take(n) =~= a);
    }
}

/// How long the first `k` members are, with the comma before the next one.
spec fn member_start(m: Seq<(Seq<char>, JsonV)>, k: int) -> int {
    compact_members(m, k).len() + (if k > 0 {
        1int
    } else {
        0
    })
}

/// The `k`th member as it is written.
spec fn member_part(m: Seq<(Seq<char>, JsonV)>, k: int) -> Seq<char> {
    quoted(m[k].0) + ":"@ + compact(m[k].1)
}

/// Where the `k`th member stands written, and what follows it.
proof fn lemma_member_place(s: Seq<char>, i: int, m: Seq<(Seq<char>, JsonV)>, k: int)
    requires
        0 <= i,
        0 <= k < m.len(),
        occurs_at(s, compact_members(m, m.len() as int) + "}"@, i),
    ensures
        occurs_at(s, member_part(m, k), i + member_start(m, k)),
        member_start(m, k) + member_part(m, k).len() == compact_members(m, k + 1).len(),
        i + compact_members(m, k + 1).len() < s.len(),
        s[i + compact_members(m, k + 1).len()] == (if k + 1 < m.len() {
            ','
        } else {
            '}'
        }),
{
    let n = m.len() as int;
    let c = compact_members(m, n);
    let w = c + "}"@;
    let from = member_start(m, k);
    let to = compact_members(m, k + 1).len() as int;
    let part = member_part(m, k);
    reveal_strlit("}");
    reveal_strlit(",");
    lemma_members_front(m, k, n);
    lemma_members_front(m, k + 1, n);
    assert(compact_members(m, k + 1) =~= compact_members(m, k) + (if k > 0 {
        ","@
    } else {
        Seq::empty()
    }) + part);
    assert(w.subrange(from, to) =~= part) by {
        assert(c.take(to).subrange(from, to) =~= part);
    }
    lemma_within(s, w, i, from, to);
    lemma_within(s, w, i, to, w.len() as int);
    assert(s[i + to] == w[to]);
}

/// The key of a written member is read, and its value stands behind the colon.
proof fn lemma_key_read(s: Seq<char>, at: int, key: Seq<char>, text: Seq<char>)
    requires
        0 <= at,
        occurs_at(s, quoted(key) + ":"@ + text, at),
    ensures
        s[at] == '"',
        string_rest(s, at + 1, Seq::empty()) == Ok::<(Seq<char>, int), Seq<char>>(
            (key, at + quoted(key).len()),
        ),
        s[at + quoted(key).len()] == ':',
        occurs_at(s, text, at + quoted(key).len() + 1),
{
    let part = quoted(key) + ":"@ + text;
    let q = quoted(key).len() as int;
    reveal_strlit(":");
    lemma_within(s, part, at, 0, part.len() as int);
    assert(part[0] == '"');
    lemma_within(s, part, at, 1, q);
    assert(part.subrange(1, q) =~= escaped(key).push('"'));
    lemma_string_of_escape(s, at + 1, key, Seq::empty());
    assert(Seq::<char>::empty() + key =~= key);
    lemma_within(s, part, at, q, part.len() as int);
    assert(part[q] == ':');
    lemma_within(s, part, at, q + 1, part.len() as int);
    assert(part.subrange(q + 1, part.len() as int) =~= text);
}

/// The members from the `k`th on are read where they stand written.
proof fn lemma_read_members(s: Seq<char>, i: int, m: Seq<(Seq<char>, JsonV)>, k: int)
    requires
        0 <= i,
        0 <= k < m.len(),
        forall|j: int| 0 <= j < m.len() ==> plain_numbers((#[trigger] m[j]).1),
        occurs_at(s, compact_members(m, m.len() as int) + "}"@, i),
    ensures
        members_at(s, i + member_start(m, k), m.take(k)) == Ok::<(JsonV, int), Seq<char>>(
            (JsonV::Obj(m), i + compact_members(m, m.len() as int).len() + 1),
        ),
    decreases m, m.len() - k,
{
    let n = m.len() as int;
    let at = i + member_start(m, k);
    let (key, v) = m[k];
    let mid = at + quoted(key).len();
    let to = i + compact_members(m, k + 1).len();
    lemma_member_place(s, i, m, k);
    lemma_key_read(s, at, key, compact(v));
    assert(skip_blanks(s, at) == at);
    assert(skip_blanks(s, mid) == mid);
    assert(mid + 1 + compact(v).len() == to) by {
        reveal_strlit(":");
    }
    lemma_read_written(s, mid + 1, v);
    assert(skip_blanks(s, to) == to);
    assert(m.take(k).push((key, v)) =~= m.take(k + 1));
    if k + 1 < n {
        lemma_read_members(s, i, m, k + 1);
    } else {
        assert(m.take(n) =~= m);
    }
}

/// What was written is read back: the text of a value is a JSON text, and denotes that
/// very value, whatever its texts hold and however deep it is.
pub proof fn law_written_reads_back(v: JsonV)
    requires
        plain_numbers(v),
    ensures
        json_text(compact(v)) == Ok::<JsonV, Seq<char>>(v),
{
    let s = compact(v);
    assert(s.subrange(0, s.len() as int) =~= s);
    lemma_read_written(s, 0, v);
    assert(skip_blanks(s, s.len() as int) == s.len());
}

} // verus!
