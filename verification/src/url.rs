//! Addresses of services: their parts, and whether they lead to this machine or to a
//! network that is not public. What cannot be judged counts as not public.

use crate::numbers::{all_figures, is_figure, number_in, read_number};
use crate::text::{
    ascii_lowercase, chars_of, ends_with, same, split, starts_with, string_of, texts,
    to_ascii_lower, trim, trimmed, pieces, cat,
};
use vstd::prelude::*;

verus! {

// ------------------------------------------------------------------------------- parts

/// The parts of an address.
#[derive(Debug)]
pub struct ParsedUrl {
    pub scheme: String,
    pub host: String,
    pub port: u16,
    pub path: String,
    pub secure: bool,
    pub bracketed: bool,
}

/// The mathematical value of the parts of an address.
pub struct UrlV {
    pub scheme: Seq<char>,
    pub host: Seq<char>,
    pub port: u16,
    pub path: Seq<char>,
    pub secure: bool,
    pub bracketed: bool,
}

impl ParsedUrl {
    pub open spec fn view(self) -> UrlV {
        UrlV {
            scheme: self.scheme@,
            host: self.host@,
            port: self.port,
            path: self.path@,
            secure: self.secure,
            bracketed: self.bracketed,
        }
    }
}

/// The first position at or after `i` with a character, and `b` where there is none
/// before `b`.
pub open spec fn char_at(s: Seq<char>, c: char, i: int, b: int) -> int
    decreases b - i,
{
    if i >= b || s[i] == c {
        i
    } else {
        char_at(s, c, i + 1, b)
    }
}

/// The last position before `n` with a character, not before `a`.
pub open spec fn last_char(s: Seq<char>, c: char, a: int, n: int) -> Option<int>
    decreases n - a,
{
    if n <= a {
        None
    } else if s[n - 1] == c {
        Some(n - 1)
    } else {
        last_char(s, c, a, n - 1)
    }
}

/// Where the name of the host and the port end.
pub open spec fn authority_end(s: Seq<char>, i: int) -> int
    decreases s.len() - i,
{
    if i < 0 || i >= s.len() || s[i] == '/' || s[i] == '\\' || s[i] == '?' || s[i] == '#' {
        i
    } else {
        authority_end(s, i + 1)
    }
}

/// The port that a text stands for; the usual one where it is empty.
pub open spec fn port_of(t: Seq<char>, secure: bool) -> Option<u16> {
    if t.len() == 0 {
        if secure {
            Some(443)
        } else {
            Some(80)
        }
    } else if all_figures(t) {
        match number_in(t) {
            Some(n) => if n <= 65535 {
                Some(n as u16)
            } else {
                None
            },
            None => None,
        }
    } else {
        None
    }
}

/// What is asked for at the host: what stands behind it, but for the mark of a place.
pub open spec fn path_of(t: Seq<char>) -> Seq<char> {
    let p = t.take(char_at(t, '#', 0, t.len() as int));
    if p.len() > 0 && p[0] == '/' {
        p
    } else {
        "/"@ + p
    }
}

/// The parts of an address behind the name of its scheme.
pub open spec fn parts_of(t: Seq<char>, n: int, secure: bool) -> Option<UrlV> {
    let e = authority_end(t, n);
    let a = match last_char(t, '@', n, e) {
        Some(k) => k + 1,
        None => n,
    };
    let bracketed = a < e && t[a] == '[';
    let b = char_at(t, ']', a, e);
    let c = char_at(t, ':', a, e);
    let scheme = if secure {
        "https"@
    } else {
        "http"@
    };
    let path = path_of(t.skip(e));
    if bracketed {
        if b >= e || (b + 1 < e && t[b + 1] != ':') {
            None
        } else {
            match port_of(
                if b + 1 < e {
                    t.subrange(b + 2, e)
                } else {
                    Seq::empty()
                },
                secure,
            ) {
                Some(port) => Some(
                    UrlV {
                        scheme,
                        host: ascii_lowercase(t.subrange(a + 1, b)),
                        port,
                        path,
                        secure,
                        bracketed,
                    },
                ),
                None => None,
            }
        }
    } else {
        match port_of(
            if c < e {
                t.subrange(c + 1, e)
            } else {
                Seq::empty()
            },
            secure,
        ) {
            Some(port) => Some(
                UrlV {
                    scheme,
                    host: ascii_lowercase(t.subrange(a, c)),
                    port,
                    path,
                    secure,
                    bracketed,
                },
            ),
            None => None,
        }
    }
}

/// The parts of an address of one of the two schemes of the web.
pub open spec fn url_parts(url: Seq<char>) -> Option<UrlV> {
    let t = trimmed(url);
    if "https://"@.is_prefix_of(ascii_lowercase(t)) {
        parts_of(t, 8, true)
    } else if "http://"@.is_prefix_of(ascii_lowercase(t)) {
        parts_of(t, 7, false)
    } else {
        None
    }
}

fn find_char(v: &Vec<char>, c: char, from: usize, to: usize) -> (out: usize)
    requires
        from <= to <= v@.len(),
    ensures
        out == char_at(v@, c, from as int, to as int),
        from <= out <= to,
{
    let mut i: usize = from;
    while i < to && v[i] != c
        invariant
            from <= i <= to <= v@.len(),
            char_at(v@, c, from as int, to as int) == char_at(v@, c, i as int, to as int),
        decreases to - i,
    {
        i += 1;
    }
    i
}

proof fn lemma_char_at(s: Seq<char>, c: char, i: int, b: int)
    requires
        i <= b,
    ensures
        i <= char_at(s, c, i, b) <= b,
    decreases b - i,
{
    if i < b && s[i] != c {
        lemma_char_at(s, c, i + 1, b);
    }
}

fn find_last(v: &Vec<char>, c: char, from: usize, to: usize) -> (out: Option<usize>)
    requires
        from <= to <= v@.len(),
    ensures
        match out {
            Some(k) => last_char(v@, c, from as int, to as int) == Some(k as int) && from <= k < to,
            None => last_char(v@, c, from as int, to as int) is None,
        },
{
    let mut n: usize = to;
    while n > from
        invariant
            from <= n <= to <= v@.len(),
            last_char(v@, c, from as int, to as int) == last_char(v@, c, from as int, n as int),
        decreases n,
    {
        if v[n - 1] == c {
            return Some(n - 1);
        }
        n -= 1;
    }
    None
}

fn find_end(v: &Vec<char>, from: usize) -> (out: usize)
    requires
        from <= v@.len(),
    ensures
        out == authority_end(v@, from as int),
        from <= out <= v@.len(),
{
    let mut i: usize = from;
    while i < v.len() && v[i] != '/' && v[i] != '\\' && v[i] != '?' && v[i] != '#'
        invariant
            from <= i <= v@.len(),
            authority_end(v@, from as int) == authority_end(v@, i as int),
        decreases v@.len() - i,
    {
        i += 1;
    }
    i
}

fn only_figures(s: &str) -> (out: bool)
    ensures
        out == all_figures(s@),
{
    let v: Vec<char> = chars_of(s);
    let mut i: usize = 0;
    while i < v.len()
        invariant
            i <= v@.len(),
            v@ == s@,
            forall|k: int| 0 <= k < i ==> is_figure(#[trigger] s@[k]),
        decreases v@.len() - i,
    {
        let c: char = v[i];
        if c < '0' || c > '9' {
            assert(!is_figure(s@[i as int]));
            return false;
        }
        i += 1;
    }
    true
}

fn read_port(t: &str, secure: bool) -> (out: Option<u16>)
    ensures
        out == port_of(t@, secure),
{
    if t.unicode_len() == 0 {
        return if secure {
            Some(443)
        } else {
            Some(80)
        };
    }
    if !only_figures(t) {
        return None;
    }
    match read_number(t) {
        Some(n) => if n <= 65535 {
            Some(n as u16)
        } else {
            None
        },
        None => None,
    }
}

fn read_path(v: &Vec<char>, e: usize) -> (out: String)
    requires
        e <= v@.len(),
    ensures
        out@ == path_of(v@.skip(e as int)),
{
    let tail: String = string_of(v, e, v.len());
    let t: Vec<char> = chars_of(tail.as_str());
    assert(t@ =~= v@.skip(e as int));
    let n: usize = find_char(&t, '#', 0, t.len());
    let p: String = string_of(&t, 0, n);
    assert(p@ =~= t@.take(n as int));
    if n > 0 && t[0] == '/' {
        p
    } else {
        cat("/", p.as_str())
    }
}

fn read_parts(t: &str, n: usize, secure: bool) -> (out: Option<ParsedUrl>)
    requires
        n <= t@.len(),
    ensures
        match out {
            Some(u) => parts_of(t@, n as int, secure) == Some(u.view()),
            None => parts_of(t@, n as int, secure) is None,
        },
{
    let v: Vec<char> = chars_of(t);
    let e: usize = find_end(&v, n);
    let a: usize = match find_last(&v, '@', n, e) {
        Some(k) => k + 1,
        None => n,
    };
    let bracketed: bool = a < e && v[a] == '[';
    let b: usize = find_char(&v, ']', a, e);
    let c: usize = find_char(&v, ':', a, e);
    proof {
        if bracketed {
            assert(char_at(t@, ']', a as int, e as int) == char_at(t@, ']', a + 1, e as int));
            lemma_char_at(t@, ']', a + 1, e as int);
        }
    }
    let scheme: String = if secure {
        "https".to_owned()
    } else {
        "http".to_owned()
    };
    let path: String = read_path(&v, e);
    let (from, to, port_from): (usize, usize, usize) = if bracketed {
        if b >= e || (e - b > 1 && v[b + 1] != ':') {
            return None;
        }
        (
            a + 1,
            b,
            if e - b > 1 {
                b + 2
            } else {
                e
            },
        )
    } else {
        (
            a,
            c,
            if c < e {
                c + 1
            } else {
                e
            },
        )
    };
    let text: String = string_of(&v, port_from, e);
    let ghost given = if bracketed {
        if b + 1 < e {
            t@.subrange(b + 2, e as int)
        } else {
            Seq::empty()
        }
    } else {
        if c < e {
            t@.subrange(c + 1, e as int)
        } else {
            Seq::empty()
        }
    };
    assert(text@ =~= given);
    let port: u16 = match read_port(text.as_str(), secure) {
        Some(p) => p,
        None => {
            return None;
        },
    };
    let name: String = string_of(&v, from, to);
    let host: String = to_ascii_lower(name.as_str());
    Some(ParsedUrl { scheme, host, port, path, secure, bracketed })
}

/// The parts of an address of one of the two schemes of the web.
pub fn parse_http_url(url: &str) -> (out: Option<ParsedUrl>)
    ensures
        match out {
            Some(u) => url_parts(url@) == Some(u.view()),
            None => url_parts(url@) is None,
        },
{
    let t: String = trim(url);
    let low: String = to_ascii_lower(t.as_str());
    assert(low@.len() == t@.len());
    if starts_with(low.as_str(), "https://") {
        proof {
            reveal_strlit("https://");
        }
        read_parts(t.as_str(), 8, true)
    } else if starts_with(low.as_str(), "http://") {
        proof {
            reveal_strlit("http://");
        }
        read_parts(t.as_str(), 7, false)
    } else {
        None
    }
}

// ----------------------------------------------------------------- addresses in numbers

/// The value of a digit, if it is one for the base.
pub open spec fn digit_of(c: char, base: nat) -> Option<nat> {
    let d = if '0' <= c && c <= '9' {
        (c as u32 - 48) as int
    } else if 'a' <= c && c <= 'f' {
        (c as u32 - 87) as int
    } else if 'A' <= c && c <= 'F' {
        (c as u32 - 55) as int
    } else {
        99
    };
    if d < base {
        Some(d as nat)
    } else {
        None
    }
}

/// The least number that is too large for an address.
pub const TOO_LARGE: u64 = 0x1_0000_0000;

/// The number that the first `n` digits make, cut off where it is too large; none where
/// one of them is no digit.
pub open spec fn digits_value(s: Seq<char>, base: nat, n: int) -> Option<nat>
    decreases n,
{
    if n <= 0 {
        Some(0)
    } else {
        match (digits_value(s, base, n - 1), digit_of(s[n - 1], base)) {
            (Some(v), Some(d)) => Some(
                if v * base + d >= TOO_LARGE {
                    TOO_LARGE as nat
                } else {
                    v * base + d
                },
            ),
            _ => None,
        }
    }
}

/// The number that a part of an address stands for: in base sixteen behind `0x`, in base
/// eight behind another zero, else in base ten.
pub open spec fn part_value(s: Seq<char>) -> Option<nat> {
    if s.len() == 0 {
        None
    } else if s.len() >= 2 && s[0] == '0' && (s[1] == 'x' || s[1] == 'X') {
        digits_value(s.skip(2), 16, s.len() - 2)
    } else if s.len() >= 2 && s[0] == '0' {
        digits_value(s.skip(1), 8, s.len() - 1)
    } else {
        digits_value(s, 10, s.len() as int)
    }
}

/// Whether a part of an address looks like a number.
pub open spec fn numeric(s: Seq<char>) -> bool {
    s.len() > 0 && (all_figures(s) || part_value(s) is Some)
}

/// What a name is as an address of four bytes: it is none, it is a wrong one, or it is
/// one.
#[derive(Debug, Clone, Copy, PartialEq, Eq, Structural)]
pub enum V4 {
    Name,
    Wrong,
    Addr(u32),
}

/// What the parts of an address from `i` on can make at most.
pub open spec fn room_at(i: int) -> nat {
    if i == 0 {
        0x1_0000_0000
    } else if i == 1 {
        0x100_0000
    } else if i == 2 {
        0x1_0000
    } else {
        0x100
    }
}

/// The value that the parts from `i` on add to an address of `n` parts: each but the last
/// makes one byte, the last makes the rest.
pub open spec fn rest_value(parts: Seq<Seq<char>>, i: int) -> Option<nat>
    decreases parts.len() - i,
{
    if i < 0 || i >= parts.len() {
        None
    } else {
        let room = room_at(i);
        match part_value(parts[i]) {
            Some(v) => if i == parts.len() - 1 {
                if v < room {
                    Some(v)
                } else {
                    None
                }
            } else if v < 256 {
                match rest_value(parts, i + 1) {
                    Some(r) => Some(v * (room / 256) + r),
                    None => None,
                }
            } else {
                None
            },
            None => None,
        }
    }
}

/// A name without the dot at its end.
pub open spec fn without_dot(h: Seq<char>) -> Seq<char> {
    if h.len() > 0 && h.last() == '.' {
        h.drop_last()
    } else {
        h
    }
}

/// What a name is as an address of four bytes.
pub open spec fn v4_of(h: Seq<char>) -> V4 {
    let parts = pieces(without_dot(h), '.', '.');
    if parts.len() == 0 || !numeric(parts.last()) {
        V4::Name
    } else if parts.len() > 4 {
        V4::Wrong
    } else {
        match rest_value(parts, 0) {
            Some(v) => V4::Addr(v as u32),
            None => V4::Wrong,
        }
    }
}

fn read_digit(c: char, base: u64) -> (out: Option<u64>)
    requires
        base <= 16,
    ensures
        match out {
            Some(d) => digit_of(c, base as nat) == Some(d as nat) && d < 16,
            None => digit_of(c, base as nat) is None,
        },
{
    let d: u64 = if '0' <= c && c <= '9' {
        (c as u32 - 48) as u64
    } else if 'a' <= c && c <= 'f' {
        (c as u32 - 87) as u64
    } else if 'A' <= c && c <= 'F' {
        (c as u32 - 55) as u64
    } else {
        99
    };
    if d < base {
        Some(d)
    } else {
        None
    }
}

proof fn lemma_no_value(s: Seq<char>, base: nat, i: int, n: int)
    requires
        digits_value(s, base, i) is None,
        i <= n,
    ensures
        digits_value(s, base, n) is None,
    decreases n - i,
{
    if i < n {
        lemma_no_value(s, base, i, n - 1);
    }
}

/// The number that the digits from a position on make.
pub fn read_digits(v: &Vec<char>, from: usize, base: u64) -> (out: Option<u64>)
    requires
        from <= v@.len(),
        2 <= base <= 16,
    ensures
        match out {
            Some(n) => digits_value(v@.skip(from as int), base as nat, v@.len() - from) == Some(
                n as nat,
            ) && n <= TOO_LARGE,
            None => digits_value(v@.skip(from as int), base as nat, v@.len() - from) is None,
        },
{
    let ghost s = v@.skip(from as int);
    let mut n: u64 = 0;
    let mut i: usize = from;
    while i < v.len()
        invariant
            from <= i <= v@.len(),
            2 <= base <= 16,
            s == v@.skip(from as int),
            n <= TOO_LARGE,
            digits_value(s, base as nat, i - from) == Some(n as nat),
        decreases v@.len() - i,
    {
        assert(s[i - from] == v@[i as int]);
        match read_digit(v[i], base) {
            Some(d) => {
                assert(n * base <= 0x10_0000_0000) by (nonlinear_arith)
                    requires
                        n <= 0x1_0000_0000,
                        base <= 16,
                ;
                let next: u64 = n * base + d;
                n = if next >= TOO_LARGE {
                    TOO_LARGE
                } else {
                    next
                };
            },
            None => {
                proof {
                    lemma_no_value(s, base as nat, i - from + 1, v@.len() - from);
                }
                return None;
            },
        }
        i += 1;
    }
    Some(n)
}

fn read_part(s: &str) -> (out: Option<u64>)
    ensures
        match out {
            Some(n) => part_value(s@) == Some(n as nat) && n <= TOO_LARGE,
            None => part_value(s@) is None,
        },
{
    let v: Vec<char> = chars_of(s);
    if v.len() == 0 {
        None
    } else if v.len() >= 2 && v[0] == '0' && (v[1] == 'x' || v[1] == 'X') {
        read_digits(&v, 2, 16)
    } else if v.len() >= 2 && v[0] == '0' {
        read_digits(&v, 1, 8)
    } else {
        assert(v@.skip(0) =~= v@);
        read_digits(&v, 0, 10)
    }
}

fn read_rest(parts: &Vec<String>, i: usize) -> (out: Option<u64>)
    requires
        i <= parts@.len() <= 4,
    ensures
        match out {
            Some(n) => rest_value(texts(parts@), i as int) == Some(n as nat) && n < room_at(
                i as int,
            ),
            None => rest_value(texts(parts@), i as int) is None,
        },
    decreases parts@.len() - i,
{
    if i >= parts.len() {
        return None;
    }
    let ghost pv = texts(parts@);
    assert(pv[i as int] == parts@[i as int]@);
    assert(pv.len() == parts@.len());
    let room: u64 = if i == 0 {
        0x1_0000_0000
    } else if i == 1 {
        0x100_0000
    } else if i == 2 {
        0x1_0000
    } else {
        0x100
    };
    match read_part(parts[i].as_str()) {
        Some(v) => if i == parts.len() - 1 {
            if v < room {
                Some(v)
            } else {
                None
            }
        } else if v < 256 {
            match read_rest(parts, i + 1) {
                Some(r) => {
                    assert(v * (room / 256) <= 255 * (room / 256)) by (nonlinear_arith)
                        requires
                            v <= 255,
                    ;
                    Some(v * (room / 256) + r)
                },
                None => None,
            }
        } else {
            None
        },
        None => None,
    }
}

/// What a name is as an address of four bytes.
pub fn read_v4(h: &str) -> (out: V4)
    ensures
        out == v4_of(h@),
{
    let v: Vec<char> = chars_of(h);
    let n: usize = if v.len() > 0 && v[v.len() - 1] == '.' {
        v.len() - 1
    } else {
        v.len()
    };
    let bare: String = string_of(&v, 0, n);
    assert(bare@ =~= without_dot(h@));
    let parts: Vec<String> = split(bare.as_str(), '.', '.');
    let ghost pv = texts(parts@);
    assert(pv.len() == parts@.len());
    if parts.len() == 0 {
        return V4::Name;
    }
    let last: &String = &parts[parts.len() - 1];
    assert(pv.last() == last@);
    if last.as_str().unicode_len() == 0 {
        return V4::Name;
    }
    let looks: bool = only_figures(last.as_str()) || read_part(last.as_str()).is_some();
    if !looks {
        return V4::Name;
    }
    if parts.len() > 4 {
        return V4::Wrong;
    }
    match read_rest(&parts, 0) {
        Some(a) => V4::Addr(a as u32),
        None => V4::Wrong,
    }
}

/// Whether an address of four bytes is not public: it is of this host or network, private,
/// shared, of this machine, of this link, or not of a single machine.
pub open spec fn private_v4(a: u32) -> bool {
    let b0 = a / 0x100_0000;
    let b1 = a / 0x1_0000 % 0x100;
    b0 == 0 || b0 == 10 || b0 == 127 || b0 >= 224 || (b0 == 100 && 64 <= b1 && b1 <= 127) || (b0
        == 169 && b1 == 254) || (b0 == 172 && 16 <= b1 && b1 <= 31) || (b0 == 192 && b1 == 168)
        || (b0 == 198 && (b1 == 18 || b1 == 19))
}

/// Whether an address of four bytes is not public.
pub fn is_private_v4(a: u32) -> (out: bool)
    ensures
        out == private_v4(a),
{
    let b0: u32 = a / 0x100_0000;
    let b1: u32 = a / 0x1_0000 % 0x100;
    b0 == 0 || b0 == 10 || b0 == 127 || b0 >= 224 || (b0 == 100 && 64 <= b1 && b1 <= 127) || (b0
        == 169 && b1 == 254) || (b0 == 172 && 16 <= b1 && b1 <= 31) || (b0 == 192 && b1 == 168)
        || (b0 == 198 && (b1 == 18 || b1 == 19))
}

// ------------------------------------------------------------ addresses of eight groups

/// The groups that a piece of an address of eight groups stands for: one to four digits
/// in base sixteen; the last piece may be an address of four bytes in base ten.
pub open spec fn piece_groups(p: Seq<char>, last: bool) -> Option<Seq<u16>> {
    if 1 <= p.len() <= 4 && digits_value(p, 16, p.len() as int) is Some {
        Some(seq![digits_value(p, 16, p.len() as int)->0 as u16])
    } else if last && p.contains('.') {
        match quad_of(p) {
            Some(a) => Some(seq![(a / 0x1_0000) as u16, (a % 0x1_0000) as u16]),
            None => None,
        }
    } else {
        None
    }
}

/// The address of four bytes that a text stands for, written in four numbers in base ten.
pub open spec fn quad_of(p: Seq<char>) -> Option<u32> {
    let parts = pieces(p, '.', '.');
    if parts.len() == 4 && all_figures(parts[0]) && all_figures(parts[1]) && all_figures(parts[2])
        && all_figures(parts[3]) {
        match v4_of(p) {
            V4::Addr(a) => Some(a),
            _ => None,
        }
    } else {
        None
    }
}

/// The groups of the first `n` pieces.
pub open spec fn groups_below(list: Seq<Seq<char>>, n: int) -> Option<Seq<u16>>
    decreases n,
{
    if n <= 0 {
        Some(Seq::empty())
    } else {
        match (groups_below(list, n - 1), piece_groups(list[n - 1], n == list.len())) {
            (Some(a), Some(b)) => Some(a + b),
            _ => None,
        }
    }
}

/// The groups of a text between colons.
pub open spec fn groups_of(t: Seq<char>) -> Option<Seq<u16>> {
    if t.len() == 0 {
        Some(Seq::empty())
    } else {
        let list = pieces(t, ':', ':');
        groups_below(list, list.len() as int)
    }
}

/// The first position at or after `i` of two colons.
pub open spec fn gap_at(h: Seq<char>, i: int) -> Option<int>
    decreases h.len() - i,
{
    if i < 0 || i + 1 >= h.len() {
        None
    } else if h[i] == ':' && h[i + 1] == ':' {
        Some(i)
    } else {
        gap_at(h, i + 1)
    }
}

/// The eight groups that a text stands for; two colons stand for as many zeros as are
/// missing.
pub open spec fn v6_of(h: Seq<char>) -> Option<Seq<u16>> {
    match gap_at(h, 0) {
        Some(d) => match (groups_of(h.take(d)), groups_of(h.skip(d + 2))) {
            (Some(l), Some(r)) => if l.len() + r.len() <= 7 {
                Some(l + Seq::new((8 - l.len() - r.len()) as nat, |i: int| 0u16) + r)
            } else {
                None
            },
            _ => None,
        },
        None => match groups_of(h) {
            Some(g) => if g.len() == 8 {
                Some(g)
            } else {
                None
            },
            None => None,
        },
    }
}

/// The address of four bytes that two groups make.
pub open spec fn v4_in(a: u16, b: u16) -> u32 {
    (a * 0x1_0000 + b) as u32
}

/// Whether an address of eight groups is not public: of this machine, of this link, of a
/// local network, not of a single machine, or a form of an address of four bytes that is
/// not public.
pub open spec fn private_v6(g: Seq<u16>) -> bool {
    let head = g[0] == 0 && g[1] == 0 && g[2] == 0 && g[3] == 0 && g[4] == 0;
    ||| head && g[5] == 0 && (private_v4(v4_in(g[6], g[7])))
    ||| head && g[5] == 0xffff && private_v4(v4_in(g[6], g[7]))
    ||| 0xfe80 <= g[0] <= 0xfebf
    ||| 0xfc00 <= g[0] <= 0xfdff
    ||| g[0] >= 0xff00
    ||| g[0] == 0x2002 && private_v4(v4_in(g[1], g[2]))
    ||| g[0] == 0x64 && g[1] == 0xff9b && private_v4(v4_in(g[6], g[7]))
}

fn read_quad(p: &str) -> (out: Option<u32>)
    ensures
        out == quad_of(p@),
{
    let parts: Vec<String> = split(p, '.', '.');
    let ghost pv = texts(parts@);
    assert(pv.len() == parts@.len());
    if parts.len() != 4 {
        return None;
    }
    assert(pv[0] == parts@[0]@ && pv[1] == parts@[1]@ && pv[2] == parts@[2]@ && pv[3]
        == parts@[3]@);
    if !(only_figures(parts[0].as_str()) && only_figures(parts[1].as_str()) && only_figures(
        parts[2].as_str(),
    ) && only_figures(parts[3].as_str())) {
        return None;
    }
    match read_v4(p) {
        V4::Addr(a) => Some(a),
        _ => None,
    }
}

proof fn lemma_small(s: Seq<char>, n: int)
    requires
        0 <= n <= 4,
        digits_value(s, 16, n) is Some,
    ensures
        n == 0 ==> digits_value(s, 16, n)->0 == 0,
        n == 1 ==> digits_value(s, 16, n)->0 < 0x10,
        n == 2 ==> digits_value(s, 16, n)->0 < 0x100,
        n == 3 ==> digits_value(s, 16, n)->0 < 0x1000,
        n == 4 ==> digits_value(s, 16, n)->0 < 0x1_0000,
    decreases n,
{
    if n > 0 {
        lemma_small(s, n - 1);
    }
}

fn read_piece(p: &str, last: bool) -> (out: Option<Vec<u16>>)
    ensures
        match out {
            Some(g) => piece_groups(p@, last) == Some(g@),
            None => piece_groups(p@, last) is None,
        },
{
    let v: Vec<char> = chars_of(p);
    if 1 <= v.len() && v.len() <= 4 {
        assert(v@.skip(0) =~= v@);
        if let Some(n) = read_digits(&v, 0, 16) {
            proof {
                lemma_small(p@, p@.len() as int);
            }
            let mut g: Vec<u16> = Vec::new();
            g.push(n as u16);
            assert(g@ =~= seq![digits_value(p@, 16, p@.len() as int)->0 as u16]);
            return Some(g);
        }
    }
    if last && crate::text::has_char(p, '.') {
        if let Some(a) = read_quad(p) {
            let mut g: Vec<u16> = Vec::new();
            g.push((a / 0x1_0000) as u16);
            g.push((a % 0x1_0000) as u16);
            assert(g@ =~= seq![(a / 0x1_0000) as u16, (a % 0x1_0000) as u16]);
            return Some(g);
        }
    }
    None
}

proof fn lemma_no_groups(list: Seq<Seq<char>>, i: int, n: int)
    requires
        groups_below(list, i) is None,
        i <= n,
    ensures
        groups_below(list, n) is None,
    decreases n - i,
{
    if i < n {
        lemma_no_groups(list, i, n - 1);
    }
}

fn read_groups(t: &str) -> (out: Option<Vec<u16>>)
    ensures
        match out {
            Some(g) => groups_of(t@) == Some(g@),
            None => groups_of(t@) is None,
        },
{
    let mut g: Vec<u16> = Vec::new();
    assert(g@ =~= Seq::empty());
    if t.unicode_len() == 0 {
        return Some(g);
    }
    let list: Vec<String> = split(t, ':', ':');
    let ghost lv = texts(list@);
    assert(lv.len() == list@.len());
    let mut i: usize = 0;
    while i < list.len()
        invariant
            i <= list@.len(),
            lv == texts(list@),
            lv.len() == list@.len(),
            lv == pieces(t@, ':', ':'),
            t@.len() > 0,
            groups_below(lv, i as int) == Some(g@),
        decreases list@.len() - i,
    {
        assert(lv[i as int] == list@[i as int]@);
        match read_piece(list[i].as_str(), i + 1 == list.len()) {
            Some(more) => {
                let mut more: Vec<u16> = more;
                let ghost a = g@;
                let ghost b = more@;
                g.append(&mut more);
                assert(g@ =~= a + b);
            },
            None => {
                proof {
                    lemma_no_groups(lv, i + 1, lv.len() as int);
                }
                return None;
            },
        }
        i += 1;
    }
    Some(g)
}

fn find_gap(v: &Vec<char>) -> (out: Option<usize>)
    ensures
        match out {
            Some(d) => gap_at(v@, 0) == Some(d as int) && d + 1 < v.len(),
            None => gap_at(v@, 0) is None,
        },
{
    let mut i: usize = 0;
    while i < v.len() && v.len() - i > 1
        invariant
            i <= v@.len(),
            gap_at(v@, 0) == gap_at(v@, i as int),
        decreases v@.len() - i,
    {
        if v[i] == ':' && v[i + 1] == ':' {
            return Some(i);
        }
        i += 1;
    }
    None
}

/// The eight groups that a text stands for.
pub fn read_v6(h: &str) -> (out: Option<Vec<u16>>)
    ensures
        match out {
            Some(g) => v6_of(h@) == Some(g@),
            None => v6_of(h@) is None,
        },
{
    let v: Vec<char> = chars_of(h);
    match find_gap(&v) {
        Some(d) => {
            let left: String = string_of(&v, 0, d);
            let right: String = string_of(&v, d + 2, v.len());
            assert(left@ =~= h@.take(d as int));
            assert(right@ =~= h@.skip(d + 2));
            let l: Vec<u16> = match read_groups(left.as_str()) {
                Some(l) => l,
                None => {
                    return None;
                },
            };
            let r: Vec<u16> = match read_groups(right.as_str()) {
                Some(r) => r,
                None => {
                    return None;
                },
            };
            if l.len() > 7 || r.len() > 7 - l.len() {
                return None;
            }
            let mut g: Vec<u16> = Vec::new();
            let mut i: usize = 0;
            while i < 8
                invariant
                    i <= 8,
                    l@.len() + r@.len() <= 7,
                    g@.len() == i,
                    forall|k: int|
                        0 <= k < i ==> (#[trigger] g@[k]) == (if k < l@.len() {
                            l@[k]
                        } else if k < 8 - r@.len() {
                            0
                        } else {
                            r@[k - (8 - r@.len())]
                        }),
                decreases 8 - i,
            {
                g.push(
                    if i < l.len() {
                        l[i]
                    } else if i < 8 - r.len() {
                        0
                    } else {
                        r[i - (8 - r.len())]
                    },
                );
                i += 1;
            }
            assert(g@ =~= l@ + Seq::new((8 - l@.len() - r@.len()) as nat, |i: int| 0u16) + r@);
            Some(g)
        },
        None => match read_groups(h) {
            Some(g) => if g.len() == 8 {
                Some(g)
            } else {
                None
            },
            None => None,
        },
    }
}

fn join_groups(a: u16, b: u16) -> (out: u32)
    ensures
        out == v4_in(a, b),
{
    a as u32 * 0x1_0000 + b as u32
}

/// Whether an address of eight groups is not public.
pub fn is_private_v6(g: &Vec<u16>) -> (out: bool)
    requires
        g.len() == 8,
    ensures
        out == private_v6(g@),
{
    let head: bool = g[0] == 0 && g[1] == 0 && g[2] == 0 && g[3] == 0 && g[4] == 0;
    let tail: bool = is_private_v4(join_groups(g[6], g[7]));
    if head && (g[5] == 0 || g[5] == 0xffff) && tail {
        return true;
    }
    if (0xfe80 <= g[0] && g[0] <= 0xfebf) || (0xfc00 <= g[0] && g[0] <= 0xfdff) || g[0] >= 0xff00 {
        return true;
    }
    (g[0] == 0x2002 && is_private_v4(join_groups(g[1], g[2]))) || (g[0] == 0x64 && g[1] == 0xff9b
        && tail)
}

// ------------------------------------------------------------------------- the judgement

/// Whether a host is not public.
pub open spec fn private_host(host: Seq<char>, bracketed: bool) -> bool {
    let h = without_dot(host);
    if bracketed {
        match v6_of(host) {
            Some(g) => private_v6(g),
            None => true,
        }
    } else if h.len() == 0 || h == "localhost"@ || ".localhost"@.is_suffix_of(h) {
        true
    } else {
        match v4_of(host) {
            V4::Name => false,
            V4::Wrong => true,
            V4::Addr(a) => private_v4(a),
        }
    }
}

/// Whether an address leads to this machine or to a network that is not public.
pub open spec fn private_url(url: Seq<char>) -> bool {
    match url_parts(url) {
        Some(u) => private_host(u.host, u.bracketed),
        None => true,
    }
}

fn is_private_host(host: &str, bracketed: bool) -> (out: bool)
    ensures
        out == private_host(host@, bracketed),
{
    if bracketed {
        return match read_v6(host) {
            Some(g) => {
                proof {
                    lemma_eight(host@);
                }
                is_private_v6(&g)
            },
            None => true,
        };
    }
    let v: Vec<char> = chars_of(host);
    let n: usize = if v.len() > 0 && v[v.len() - 1] == '.' {
        v.len() - 1
    } else {
        v.len()
    };
    let h: String = string_of(&v, 0, n);
    assert(h@ =~= without_dot(host@));
    if n == 0 || same(h.as_str(), "localhost") || ends_with(h.as_str(), ".localhost") {
        return true;
    }
    match read_v4(host) {
        V4::Name => false,
        V4::Wrong => true,
        V4::Addr(a) => is_private_v4(a),
    }
}

proof fn lemma_eight(h: Seq<char>)
    ensures
        v6_of(h) matches Some(g) ==> g.len() == 8,
{
}

/// Whether an address leads to this machine or to a network that is not public. What
/// cannot be judged counts as such.
pub fn is_private_api_url(url: &str) -> (out: bool)
    ensures
        out == private_url(url@),
{
    match parse_http_url(url) {
        Some(u) => is_private_host(u.host.as_str(), u.bracketed),
        None => true,
    }
}

/// What is no address of the web is never public.
pub proof fn law_unreadable_is_private(url: Seq<char>)
    requires
        url_parts(url) is None,
    ensures
        private_url(url),
{
}

/// Every way to write an address of this machine in numbers is recognised: whatever the
/// base of its parts, an address that starts with the byte 127 is not public.
pub proof fn law_loopback(h: Seq<char>)
    requires
        v4_of(h) matches V4::Addr(a) && 0x7f00_0000 <= a <= 0x7fff_ffff,
    ensures
        private_host(h, false),
{
}

} // verus!
