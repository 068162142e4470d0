//! Text as sequences of characters: the small operations that the rest of the
//! library is written with, each stated over the characters of its arguments.

use vstd::prelude::*;

verus! {

/// The full Unicode lower case of a text.
pub uninterp spec fn lowercase(s: Seq<char>) -> Seq<char>;

/// The upper case form of a text, as `str::to_uppercase` gives it.
pub uninterp spec fn uppercase(s: Seq<char>) -> Seq<char>;

/// Whether a character has the Unicode `White_Space` property.
pub open spec fn white(c: char) -> bool {
    ||| '\u{9}' <= c <= '\u{d}'
    ||| c == '\u{20}' || c == '\u{85}' || c == '\u{a0}' || c == '\u{1680}'
    ||| '\u{2000}' <= c <= '\u{200a}'
    ||| c == '\u{2028}' || c == '\u{2029}' || c == '\u{202f}' || c == '\u{205f}'
    ||| c == '\u{3000}'
}

/// `String::push` appends the given character to the end of the string.
pub assume_specification[ String::push ](s: &mut String, c: char)
    ensures
        final(s)@ == old(s)@.push(c),
;

/// `str::to_lowercase` returns the lower case equivalent of the slice; the
/// result is a function of the characters of the slice alone, and is named.
pub assume_specification[ str::to_lowercase ](s: &str) -> (out: String)
    ensures
        out@ == lowercase(s@),
;

/// `str::to_uppercase` returns the upper case equivalent of the slice; the
/// result is a function of the characters of the slice alone, and is named.
pub assume_specification[ str::to_uppercase ](s: &str) -> (out: String)
    ensures
        out@ == uppercase(s@),
;

/// `char::is_whitespace` tells whether the character has the `White_Space`
/// property of the Unicode Character Database.
pub assume_specification[ char::is_whitespace ](c: char) -> (out: bool)
    ensures
        out == white(c),
;

/// The texts held by a sequence of strings.
pub open spec fn texts(v: Seq<String>) -> Seq<Seq<char>> {
    Seq::new(v.len(), |i: int| v[i]@)
}

pub proof fn lemma_texts_push(v: Seq<String>, s: String)
    ensures
        texts(v.push(s)) == texts(v).push(s@),
{
    assert(texts(v.push(s)) =~= texts(v).push(s@));
}

/// The characters of a string slice, in order.
pub fn chars_of(s: &str) -> (out: Vec<char>)
    ensures
        out@ == s@,
{
    let mut out: Vec<char> = Vec::new();
    for c in it: s.chars()
        invariant
            out@ == it.seq().take(it.index() as int),
            it.seq() == s@,
    {
        out.push(c);
    }
    out
}

/// The string made of the characters of `v` from `a` up to `b`.
pub fn string_of(v: &Vec<char>, a: usize, b: usize) -> (out: String)
    requires
        a <= b <= v@.len(),
    ensures
        out@ == v@.subrange(a as int, b as int),
{
    let mut out: String = String::new();
    let mut i: usize = a;
    while i < b
        invariant
            a <= i <= b <= v@.len(),
            out@ == v@.subrange(a as int, i as int),
        decreases b - i,
    {
        out.push(v[i]);
        i += 1;
        assert(v@.subrange(a as int, i as int) =~= v@.subrange(a as int, i - 1).push(v@[i - 1]));
    }
    out
}

/// Whether two strings hold the same characters.
pub fn same(a: &str, b: &str) -> (out: bool)
    ensures
        out == (a@ == b@),
{
    a.to_owned() == b.to_owned()
}

/// Whether one of the strings of the list is `s`.
pub fn listed(list: &Vec<String>, s: &str) -> (out: bool)
    ensures
        out == texts(list@).contains(s@),
{
    let mut i: usize = 0;
    while i < list.len()
        invariant
            i <= list@.len(),
            forall|k: int| 0 <= k < i ==> (#[trigger] list@[k])@ != s@,
        decreases list@.len() - i,
    {
        if same(list[i].as_str(), s) {
            assert(texts(list@)[i as int] == s@);
            return true;
        }
        i += 1;
    }
    assert forall|k: int| 0 <= k < texts(list@).len() implies texts(list@)[k] != s@ by {
        assert(list@[k]@ != s@);
    }
    false
}

/// A copy of a list of strings.
pub fn copy_list(list: &Vec<String>) -> (out: Vec<String>)
    ensures
        texts(out@) == texts(list@),
{
    let mut out: Vec<String> = Vec::new();
    let mut i: usize = 0;
    while i < list.len()
        invariant
            i <= list@.len(),
            texts(out@) == texts(list@).take(i as int),
        decreases list@.len() - i,
    {
        let s: String = list[i].clone();
        proof {
            lemma_texts_push(out@, s);
            assert(texts(list@).take(i + 1) =~= texts(list@).take(i as int).push(list@[i as int]@));
        }
        out.push(s);
        i += 1;
    }
    assert(texts(list@).take(list@.len() as int) =~= texts(list@));
    out
}

/// Whether `s` begins with `p`.
pub fn starts_with(s: &str, p: &str) -> (out: bool)
    ensures
        out == p@.is_prefix_of(s@),
{
    let a: Vec<char> = chars_of(s);
    let b: Vec<char> = chars_of(p);
    if b.len() > a.len() {
        return false;
    }
    let mut i: usize = 0;
    while i < b.len()
        invariant
            i <= b@.len() <= a@.len(),
            a@ == s@,
            b@ == p@,
            forall|k: int| 0 <= k < i ==> a@[k] == b@[k],
        decreases b@.len() - i,
    {
        if a[i] != b[i] {
            assert(s@.subrange(0, p@.len() as int)[i as int] != p@[i as int]);
            return false;
        }
        i += 1;
    }
    assert(s@.subrange(0, p@.len() as int) =~= p@);
    true
}

/// Whether `s` ends with `p`.
pub fn ends_with(s: &str, p: &str) -> (out: bool)
    ensures
        out == p@.is_suffix_of(s@),
{
    let a: Vec<char> = chars_of(s);
    let b: Vec<char> = chars_of(p);
    if b.len() > a.len() {
        return false;
    }
    let d: usize = a.len() - b.len();
    let mut i: usize = 0;
    while i < b.len()
        invariant
            i <= b@.len() <= a.len(),
            d == a.len() - b@.len(),
            a@ == s@,
            b@ == p@,
            forall|k: int| 0 <= k < i ==> a@[d + k] == b@[k],
        decreases b@.len() - i,
    {
        if a[d + i] != b[i] {
            assert(s@.subrange(d as int, s@.len() as int)[i as int] != p@[i as int]);
            return false;
        }
        i += 1;
    }
    assert(s@.subrange(d as int, s@.len() as int) =~= p@);
    true
}

/// Whether `c` occurs in `s`.
pub fn has_char(s: &str, c: char) -> (out: bool)
    ensures
        out == s@.contains(c),
{
    let a: Vec<char> = chars_of(s);
    let mut i: usize = 0;
    while i < a.len()
        invariant
            i <= a@.len(),
            a@ == s@,
            forall|k: int| 0 <= k < i ==> a@[k] != c,
        decreases a@.len() - i,
    {
        if a[i] == c {
            assert(s@[i as int] == c);
            return true;
        }
        i += 1;
    }
    false
}

/// Whether `p` occurs in `s` at position `i`.
pub open spec fn occurs_at(s: Seq<char>, p: Seq<char>, i: int) -> bool {
    0 <= i && i + p.len() <= s.len() && s.subrange(i, i + p.len()) == p
}

/// Whether `p` occurs somewhere in `s`.
pub open spec fn occurs(s: Seq<char>, p: Seq<char>) -> bool {
    exists|i: int| occurs_at(s, p, i)
}

/// Whether `p` occurs in the characters `a` at position `i`.
pub fn occurs_here(a: &Vec<char>, p: &Vec<char>, i: usize) -> (out: bool)
    requires
        i <= a@.len(),
    ensures
        out == occurs_at(a@, p@, i as int),
{
    if p.len() > a.len() - i {
        return false;
    }
    let mut k: usize = 0;
    while k < p.len()
        invariant
            k <= p@.len() <= a.len() - i,
            i <= a.len(),
            forall|j: int| 0 <= j < k ==> a@[i + j] == p@[j],
        decreases p@.len() - k,
    {
        if a[i + k] != p[k] {
            assert(a@.subrange(i as int, i + p@.len())[k as int] != p@[k as int]);
            return false;
        }
        k += 1;
    }
    assert(a@.subrange(i as int, i + p@.len()) =~= p@);
    true
}

/// The first position at which `p` occurs in `s` at or after `from`, if any.
pub fn find_from(a: &Vec<char>, p: &Vec<char>, from: usize) -> (out: Option<usize>)
    requires
        from <= a@.len(),
    ensures
        match out {
            Some(i) => from <= i && occurs_at(a@, p@, i as int) && forall|k: int|
                from <= k < i ==> !occurs_at(a@, p@, k),
            None => forall|k: int| from <= k ==> !occurs_at(a@, p@, k),
        },
{
    let mut i: usize = from;
    loop
        invariant
            from <= i <= a@.len(),
            forall|k: int| from <= k < i ==> !occurs_at(a@, p@, k),
        decreases a@.len() - i,
    {
        if occurs_here(a, p, i) {
            return Some(i);
        }
        if i == a.len() {
            return None;
        }
        i += 1;
    }
}

/// Whether `p` occurs somewhere in `s`.
pub fn has(s: &str, p: &str) -> (out: bool)
    ensures
        out == occurs(s@, p@),
{
    let a: Vec<char> = chars_of(s);
    let b: Vec<char> = chars_of(p);
    let r: Option<usize> = find_from(&a, &b, 0);
    assert(occurs(s@, p@) ==> exists|k: int| 0 <= k && occurs_at(a@, b@, k));
    r.is_some()
}

/// `s` with every character `from` replaced by `to`.
pub open spec fn replaced(s: Seq<char>, from: char, to: char) -> Seq<char> {
    Seq::new(s.len(), |i: int| if s[i] == from { to } else { s[i] })
}

/// `s` with every character `from` replaced by `to`.
pub fn replace_char(s: &str, from: char, to: char) -> (out: String)
    ensures
        out@ == replaced(s@, from, to),
{
    let a: Vec<char> = chars_of(s);
    let mut out: String = String::new();
    let mut i: usize = 0;
    while i < a.len()
        invariant
            i <= a@.len(),
            a@ == s@,
            out@ == replaced(s@, from, to).take(i as int),
        decreases a@.len() - i,
    {
        if a[i] == from {
            out.push(to);
        } else {
            out.push(a[i]);
        }
        i += 1;
        assert(replaced(s@, from, to).take(i as int) =~= replaced(s@, from, to).take(i - 1).push(
            replaced(s@, from, to)[i - 1],
        ));
    }
    assert(replaced(s@, from, to).take(s@.len() as int) =~= replaced(s@, from, to));
    out
}

/// The lower case of an ASCII letter; every other character is kept.
pub open spec fn ascii_lower(c: char) -> char {
    if 'A' <= c && c <= 'Z' {
        ((c as u32) + 32) as char
    } else {
        c
    }
}

/// The upper case of an ASCII letter; every other character is kept.
pub open spec fn ascii_upper(c: char) -> char {
    if 'a' <= c && c <= 'z' {
        ((c as u32) - 32) as char
    } else {
        c
    }
}

/// A text with its ASCII letters in lower case.
pub open spec fn ascii_lowercase(s: Seq<char>) -> Seq<char> {
    Seq::new(s.len(), |i: int| ascii_lower(s[i]))
}

/// A text with its ASCII letters in upper case.
pub open spec fn ascii_uppercase(s: Seq<char>) -> Seq<char> {
    Seq::new(s.len(), |i: int| ascii_upper(s[i]))
}

pub fn to_ascii_lower(s: &str) -> (out: String)
    ensures
        out@ == ascii_lowercase(s@),
{
    let a: Vec<char> = chars_of(s);
    let mut out: String = String::new();
    let mut i: usize = 0;
    while i < a.len()
        invariant
            i <= a@.len(),
            a@ == s@,
            out@ == ascii_lowercase(s@).take(i as int),
        decreases a@.len() - i,
    {
        let c: char = a[i];
        if 'A' <= c && c <= 'Z' {
            out.push(((c as u32) as u8 + 32) as char);
        } else {
            out.push(c);
        }
        i += 1;
        assert(ascii_lowercase(s@).take(i as int) =~= ascii_lowercase(s@).take(i - 1).push(
            ascii_lower(s@[i - 1]),
        ));
    }
    assert(ascii_lowercase(s@).take(s@.len() as int) =~= ascii_lowercase(s@));
    out
}

pub fn to_ascii_upper(s: &str) -> (out: String)
    ensures
        out@ == ascii_uppercase(s@),
{
    let a: Vec<char> = chars_of(s);
    let mut out: String = String::new();
    let mut i: usize = 0;
    while i < a.len()
        invariant
            i <= a@.len(),
            a@ == s@,
            out@ == ascii_uppercase(s@).take(i as int),
        decreases a@.len() - i,
    {
        let c: char = a[i];
        if 'a' <= c && c <= 'z' {
            out.push(((c as u32) as u8 - 32) as char);
        } else {
            out.push(c);
        }
        i += 1;
        assert(ascii_uppercase(s@).take(i as int) =~= ascii_uppercase(s@).take(i - 1).push(
            ascii_upper(s@[i - 1]),
        ));
    }
    assert(ascii_uppercase(s@).take(s@.len() as int) =~= ascii_uppercase(s@));
    out
}

/// `s` without its leading white space.
pub open spec fn trimmed_start(s: Seq<char>) -> Seq<char>
    decreases s.len(),
{
    if s.len() > 0 && white(s[0]) {
        trimmed_start(s.skip(1))
    } else {
        s
    }
}

/// `s` without its trailing white space.
pub open spec fn trimmed_end(s: Seq<char>) -> Seq<char>
    decreases s.len(),
{
    if s.len() > 0 && white(s.last()) {
        trimmed_end(s.drop_last())
    } else {
        s
    }
}

/// `s` without leading and trailing white space.
pub open spec fn trimmed(s: Seq<char>) -> Seq<char> {
    trimmed_end(trimmed_start(s))
}

/// `s` without leading and trailing white space.
pub fn trim(s: &str) -> (out: String)
    ensures
        out@ == trimmed(s@),
{
    let a: Vec<char> = chars_of(s);
    let mut i: usize = 0;
    assert(a@.skip(0) =~= a@);
    while i < a.len() && a[i].is_whitespace()
        invariant
            i <= a@.len(),
            trimmed_start(a@.skip(i as int)) == trimmed_start(a@),
        decreases a@.len() - i,
    {
        assert(a@.skip(i as int).skip(1) =~= a@.skip(i + 1));
        i += 1;
    }
    let ghost t = a@.skip(i as int);
    assert(trimmed_start(a@) == t);
    let mut j: usize = a.len();
    assert(a@.subrange(i as int, j as int) =~= t);
    while j > i && a[j - 1].is_whitespace()
        invariant
            i <= j <= a@.len(),
            trimmed_end(a@.subrange(i as int, j as int)) == trimmed_end(t),
        decreases j,
    {
        assert(a@.subrange(i as int, j as int).drop_last() =~= a@.subrange(i as int, j - 1));
        j -= 1;
    }
    string_of(&a, i, j)
}

/// The pieces of `s` between the separators `a` and `b`, empty ones included.
pub open spec fn pieces(s: Seq<char>, a: char, b: char) -> Seq<Seq<char>>
    decreases s.len(),
{
    if s.len() == 0 {
        seq![s]
    } else {
        let r = pieces(s.drop_last(), a, b);
        if s.last() == a || s.last() == b {
            r.push(Seq::empty())
        } else {
            r.drop_last().push(r.last().push(s.last()))
        }
    }
}

pub proof fn lemma_pieces_nonempty(s: Seq<char>, a: char, b: char)
    ensures
        pieces(s, a, b).len() > 0,
    decreases s.len(),
{
    if s.len() > 0 {
        lemma_pieces_nonempty(s.drop_last(), a, b);
    }
}

/// The pieces of `s` between the separators `a` and `b`, empty ones included.
pub fn split(s: &str, a: char, b: char) -> (out: Vec<String>)
    ensures
        texts(out@) == pieces(s@, a, b),
{
    let v: Vec<char> = chars_of(s);
    let mut out: Vec<String> = Vec::new();
    let mut cur: String = String::new();
    let mut i: usize = 0;
    assert(v@.take(0) =~= cur@);
    assert(texts(out@).push(cur@) =~= seq![cur@]);
    while i < v.len()
        invariant
            i <= v@.len(),
            v@ == s@,
            texts(out@).push(cur@) == pieces(v@.take(i as int), a, b),
        decreases v@.len() - i,
    {
        let c: char = v[i];
        let ghost r = pieces(v@.take(i as int), a, b);
        assert(v@.take(i + 1).drop_last() =~= v@.take(i as int));
        assert(r.drop_last() =~= texts(out@));
        if c == a || c == b {
            proof {
                lemma_texts_push(out@, cur);
            }
            out.push(cur);
            cur = String::new();
        } else {
            cur.push(c);
        }
        i += 1;
    }
    assert(v@.take(v@.len() as int) =~= v@);
    proof {
        lemma_texts_push(out@, cur);
    }
    out.push(cur);
    out
}

/// The texts of a list with `sep` between neighbours.
pub open spec fn joined(list: Seq<Seq<char>>, sep: Seq<char>) -> Seq<char>
    decreases list.len(),
{
    if list.len() == 0 {
        Seq::empty()
    } else if list.len() == 1 {
        list[0]
    } else {
        joined(list.drop_last(), sep) + sep + list.last()
    }
}

/// The texts of a list with `sep` between neighbours.
pub fn join(list: &Vec<String>, sep: &str) -> (out: String)
    ensures
        out@ == joined(texts(list@), sep@),
{
    let mut out: String = String::new();
    let mut i: usize = 0;
    while i < list.len()
        invariant
            i <= list@.len(),
            out@ == joined(texts(list@).take(i as int), sep@),
        decreases list@.len() - i,
    {
        if i > 0 {
            out.append(sep);
        }
        out.append(list[i].as_str());
        i += 1;
        assert(texts(list@).take(i as int).drop_last() =~= texts(list@).take(i - 1));
        assert(texts(list@).take(i as int).last() == list@[i - 1]@);
        if i == 1 {
            assert(out@ =~= list@[0]@);
        }
    }
    assert(texts(list@).take(list@.len() as int) =~= texts(list@));
    out
}

/// The decimal digit of a number below ten.
pub open spec fn digit(d: nat) -> char {
    (48 + d) as char
}

/// The decimal digits of a number.
pub open spec fn dec(n: nat) -> Seq<char>
    decreases n,
{
    if n < 10 {
        seq![digit(n)]
    } else {
        dec(n / 10).push(digit(n % 10))
    }
}

pub fn push_dec(out: &mut String, n: u64)
    ensures
        final(out)@ == old(out)@ + dec(n as nat),
    decreases n,
{
    if n >= 10 {
        push_dec(out, n / 10);
    }
    out.push((48u8 + (n % 10) as u8) as char);
    assert(final(out)@ =~= old(out)@ + dec(n as nat));
}

/// The decimal digits of a number.
pub fn decimal(n: u64) -> (out: String)
    ensures
        out@ == dec(n as nat),
{
    let mut out: String = String::new();
    push_dec(&mut out, n);
    assert(out@ =~= dec(n as nat));
    out
}

/// The lower case hexadecimal digit of a number below sixteen.
pub open spec fn hex_digit(d: nat) -> char {
    if d < 10 {
        (48 + d) as char
    } else {
        (87 + d) as char
    }
}

pub fn hex_char(d: u8) -> (out: char)
    requires
        d < 16,
    ensures
        out == hex_digit(d as nat),
{
    if d < 10 {
        (48 + d) as char
    } else {
        (87 + d) as char
    }
}

/// The first `n` characters of `s`, or all of them where it has fewer.
pub open spec fn first_chars(s: Seq<char>, n: nat) -> Seq<char> {
    if s.len() <= n {
        s
    } else {
        s.take(n as int)
    }
}

/// The first `n` characters of `s`, or all of them where it has fewer.
pub fn take_chars(s: &str, n: usize) -> (out: String)
    ensures
        out@ == first_chars(s@, n as nat),
{
    let a: Vec<char> = chars_of(s);
    if a.len() <= n {
        assert(a@.subrange(0, a@.len() as int) =~= a@);
        string_of(&a, 0, a.len())
    } else {
        assert(a@.subrange(0, n as int) =~= a@.take(n as int));
        string_of(&a, 0, n)
    }
}

/// A number, or the largest `u64` where it is larger than that.
pub open spec fn cap64(n: nat) -> nat {
    if n > u64::MAX {
        u64::MAX as nat
    } else {
        n
    }
}

/// The texts and numbers held by a sequence of rows.
pub open spec fn rows(v: Seq<(String, u64)>) -> Seq<(Seq<char>, u64)> {
    Seq::new(v.len(), |i: int| (v[i].0@, v[i].1))
}

/// The texts of a list that are not empty, in order.
pub open spec fn nonempty(list: Seq<Seq<char>>) -> Seq<Seq<char>>
    decreases list.len(),
{
    if list.len() == 0 {
        Seq::empty()
    } else if list.last().len() == 0 {
        nonempty(list.drop_last())
    } else {
        nonempty(list.drop_last()).push(list.last())
    }
}

/// Drops the empty strings of a list.
pub fn drop_empty(list: Vec<String>) -> (out: Vec<String>)
    ensures
        texts(out@) == nonempty(texts(list@)),
{
    let mut out: Vec<String> = Vec::new();
    let mut i: usize = 0;
    assert(texts(out@) =~= Seq::empty());
    while i < list.len()
        invariant
            i <= list@.len(),
            texts(out@) == nonempty(texts(list@).take(i as int)),
        decreases list@.len() - i,
    {
        assert(texts(list@).take(i + 1).drop_last() =~= texts(list@).take(i as int));
        if list[i].as_str().unicode_len() > 0 {
            let s: String = list[i].clone();
            proof {
                lemma_texts_push(out@, s);
            }
            out.push(s);
        }
        i += 1;
    }
    assert(texts(list@).take(list@.len() as int) =~= texts(list@));
    out
}

/// `s` without the run of the characters `a` and `b` at its end.
pub open spec fn without_trailing(s: Seq<char>, a: char, b: char) -> Seq<char>
    decreases s.len(),
{
    if s.len() > 0 && (s.last() == a || s.last() == b) {
        without_trailing(s.drop_last(), a, b)
    } else {
        s
    }
}

/// `s` without the run of the characters `a` and `b` at its end.
pub fn trim_trailing(s: &str, a: char, b: char) -> (out: String)
    ensures
        out@ == without_trailing(s@, a, b),
{
    let v: Vec<char> = chars_of(s);
    let mut n: usize = v.len();
    assert(v@.take(n as int) =~= v@);
    while n > 0 && (v[n - 1] == a || v[n - 1] == b)
        invariant
            n <= v@.len(),
            v@ == s@,
            without_trailing(s@, a, b) == without_trailing(v@.take(n as int), a, b),
        decreases n,
    {
        assert(v@.take(n as int).drop_last() =~= v@.take(n - 1));
        n -= 1;
    }
    assert(v@.subrange(0, n as int) =~= v@.take(n as int));
    string_of(&v, 0, n)
}

/// One text behind another.
pub fn cat(a: &str, b: &str) -> (out: String)
    ensures
        out@ == a@ + b@,
{
    let mut s: String = a.to_owned();
    s.append(b);
    s
}

/// Three texts, one behind another.
pub fn cat3(a: &str, b: &str, c: &str) -> (out: String)
    ensures
        out@ == a@ + b@ + c@,
{
    let mut s: String = a.to_owned();
    s.append(b);
    s.append(c);
    s
}

/// The text from the character at `n` on.
pub fn skip_chars(s: &str, n: usize) -> (out: String)
    requires
        n <= s@.len(),
    ensures
        out@ == s@.skip(n as int),
{
    let v: Vec<char> = chars_of(s);
    let out: String = string_of(&v, n, v.len());
    assert(out@ =~= s@.skip(n as int));
    out
}

/// A line without the carriage return at its end.
pub open spec fn without_return(s: Seq<char>) -> Seq<char> {
    if s.len() > 0 && s.last() == '\r' {
        s.drop_last()
    } else {
        s
    }
}

/// The lines of a text. A line break at the end starts no further line.
pub open spec fn lines_in(s: Seq<char>) -> Seq<Seq<char>> {
    let p = pieces(s, '\n', '\n');
    let n = if p.last().len() == 0 {
        (p.len() - 1) as nat
    } else {
        p.len()
    };
    Seq::new(n, |i: int| without_return(p[i]))
}

/// The lines of a text.
pub fn lines(s: &str) -> (out: Vec<String>)
    ensures
        texts(out@) == lines_in(s@),
{
    let list: Vec<String> = split(s, '\n', '\n');
    let ghost p = pieces(s@, '\n', '\n');
    proof {
        lemma_pieces_nonempty(s@, '\n', '\n');
        assert(texts(list@).len() == list@.len());
        assert(p.last() == list@[list@.len() - 1]@);
    }
    let n: usize = if list[list.len() - 1].as_str().unicode_len() == 0 {
        list.len() - 1
    } else {
        list.len()
    };
    let mut out: Vec<String> = Vec::new();
    let mut i: usize = 0;
    assert(texts(out@) =~= lines_in(s@).take(0));
    while i < n
        invariant
            i <= n <= list@.len(),
            p == pieces(s@, '\n', '\n'),
            p == texts(list@),
            n == lines_in(s@).len(),
            texts(out@) == lines_in(s@).take(i as int),
        decreases n - i,
    {
        assert(p[i as int] == list@[i as int]@);
        let v: Vec<char> = chars_of(list[i].as_str());
        let t: String = if v.len() > 0 && v[v.len() - 1] == '\r' {
            let t: String = string_of(&v, 0, v.len() - 1);
            assert(t@ =~= p[i as int].drop_last());
            t
        } else {
            list[i].clone()
        };
        assert(t@ == without_return(p[i as int]));
        proof {
            lemma_texts_push(out@, t);
        }
        let ghost before = texts(out@);
        out.push(t);
        assert(texts(out@) =~= before.push(t@));
        i += 1;
        assert(lines_in(s@).take(i as int) =~= lines_in(s@).take(i - 1).push(lines_in(s@)[i - 1]));
    }
    assert(lines_in(s@).take(n as int) =~= lines_in(s@));
    out
}

/// What follows a prefix, where a text has it.
pub open spec fn behind(s: Seq<char>, p: Seq<char>) -> Option<Seq<char>> {
    if p.is_prefix_of(s) {
        Some(s.skip(p.len() as int))
    } else {
        None
    }
}

/// What follows a prefix, where a text has it.
pub fn strip_front(s: &str, p: &str) -> (out: Option<String>)
    ensures
        match out {
            Some(t) => behind(s@, p@) == Some(t@),
            None => behind(s@, p@) is None,
        },
{
    if starts_with(s, p) {
        let n: usize = p.unicode_len();
        Some(skip_chars(s, n))
    } else {
        None
    }
}

/// How many bytes a character takes.
pub open spec fn utf8_width(c: char) -> int {
    if (c as u32) < 0x80 {
        1
    } else if (c as u32) < 0x800 {
        2
    } else if (c as u32) < 0x10000 {
        3
    } else {
        4
    }
}

/// How many bytes a character takes.
pub fn char_bytes(c: char) -> (out: u32)
    ensures
        out == utf8_width(c),
{
    if (c as u32) < 0x80 {
        1
    } else if (c as u32) < 0x800 {
        2
    } else if (c as u32) < 0x10000 {
        3
    } else {
        4
    }
}

/// How many bytes the first `n` characters of a text take.
pub open spec fn byte_count(s: Seq<char>, n: int) -> int
    decreases n,
{
    if n <= 0 {
        0
    } else {
        byte_count(s, n - 1) + utf8_width(s[n - 1])
    }
}

/// How many bytes a text takes.
pub open spec fn byte_length(s: Seq<char>) -> int {
    byte_count(s, s.len() as int)
}

/// How many bytes the first `n` characters take.
pub fn count_bytes(v: &Vec<char>, n: usize) -> (out: u128)
    requires
        n <= v@.len(),
    ensures
        out == byte_count(v@, n as int),
{
    let mut out: u128 = 0;
    let mut i: usize = 0;
    while i < n
        invariant
            i <= n <= v@.len(),
            out == byte_count(v@, i as int),
            out <= 4 * i,
        decreases n - i,
    {
        out += char_bytes(v[i]) as u128;
        i += 1;
    }
    out
}

/// How many bytes a text takes.
pub fn byte_len(s: &str) -> (out: u128)
    ensures
        out == byte_length(s@),
{
    let v: Vec<char> = chars_of(s);
    count_bytes(&v, v.len())
}

/// The text from `i` on with `r` in place of every occurrence of `p`.
pub open spec fn replaced_from(s: Seq<char>, p: Seq<char>, r: Seq<char>, i: int) -> Seq<char>
    decreases s.len() - i,
{
    if i < 0 || i >= s.len() {
        Seq::empty()
    } else if p.len() > 0 && occurs_at(s, p, i) {
        r + replaced_from(s, p, r, (i + p.len()) as int)
    } else {
        seq![s[i]] + replaced_from(s, p, r, i + 1)
    }
}

/// A text with another in place of every occurrence of a part that is not empty.
pub fn replace_all(s: &str, p: &str, r: &str) -> (out: String)
    ensures
        out@ == replaced_from(s@, p@, r@, 0),
{
    let a: Vec<char> = chars_of(s);
    let b: Vec<char> = chars_of(p);
    let mut out: String = String::new();
    let mut i: usize = 0;
    assert(out@ + replaced_from(s@, p@, r@, 0) =~= replaced_from(s@, p@, r@, 0));
    while i < a.len()
        invariant
            i <= a@.len(),
            a@ == s@,
            b@ == p@,
            out@ + replaced_from(s@, p@, r@, i as int) == replaced_from(s@, p@, r@, 0),
        decreases a@.len() - i,
    {
        let ghost rest = replaced_from(s@, p@, r@, i as int);
        let ghost before = out@;
        if b.len() > 0 && occurs_here(&a, &b, i) {
            out.append(r);
            i += b.len();
        } else {
            out.push(a[i]);
            i += 1;
        }
        assert(out@ + replaced_from(s@, p@, r@, i as int) =~= before + rest);
    }
    assert(out@ =~= replaced_from(s@, p@, r@, 0));
    out
}

} // verus!
