//! The parts of a path, read from its text alone. Both slashes separate.

use crate::text::{
    cat, cat3, chars_of, drop_empty, nonempty, pieces, same, skip_chars, split, string_of, texts,
};
use vstd::prelude::*;

verus! {

/// The components of a path but for the places that stay where they are.
pub open spec fn stops(list: Seq<Seq<char>>, n: int) -> Seq<Seq<char>>
    decreases n,
{
    if n <= 0 {
        Seq::empty()
    } else if list[n - 1] == "."@ {
        stops(list, n - 1)
    } else {
        stops(list, n - 1).push(list[n - 1])
    }
}

/// Whether a component is a drive such as `C:`.
pub open spec fn is_drive(c: Seq<char>) -> bool {
    c.len() == 2 && c[1] == ':' && (('a' <= c[0] && c[0] <= 'z') || ('A' <= c[0] && c[0] <= 'Z'))
}

/// The last component of a path, unless that is a drive or leads upwards.
pub open spec fn file_name_of(p: Seq<char>) -> Option<Seq<char>> {
    let all = nonempty(pieces(p, '\\', '/'));
    let c = stops(all, all.len() as int);
    if c.len() == 0 || c.last() == ".."@ || (c.len() == 1 && is_drive(c[0])) {
        None
    } else {
        Some(c.last())
    }
}

/// The position of the last dot before `n`.
pub open spec fn last_dot(s: Seq<char>, n: int) -> Option<int>
    decreases n,
{
    if n <= 0 || n > s.len() {
        None
    } else if s[n - 1] == '.' {
        Some(n - 1)
    } else {
        last_dot(s, n - 1)
    }
}

/// What stands behind the last dot of the last component, unless that dot is its
/// first character.
pub open spec fn extension_of(p: Seq<char>) -> Option<Seq<char>> {
    match file_name_of(p) {
        None => None,
        Some(f) => match last_dot(f, f.len() as int) {
            None => None,
            Some(i) => if i == 0 {
                None
            } else {
                Some(f.skip(i + 1))
            },
        },
    }
}

/// The last component of a path, unless that is a drive or leads upwards.
pub fn file_name(p: &str) -> (out: Option<String>)
    ensures
        match out {
            Some(f) => file_name_of(p@) == Some(f@),
            None => file_name_of(p@) is None,
        },
{
    let all: Vec<String> = drop_empty(split(p, '\\', '/'));
    let mut c: Vec<String> = Vec::new();
    let mut i: usize = 0;
    assert(texts(c@) =~= Seq::empty());
    while i < all.len()
        invariant
            i <= all@.len(),
            texts(c@) == stops(texts(all@), i as int),
        decreases all@.len() - i,
    {
        if !same(all[i].as_str(), ".") {
            let s: String = all[i].clone();
            proof {
                crate::text::lemma_texts_push(c@, s);
            }
            c.push(s);
        }
        i += 1;
    }
    assert(texts(all@).len() == all@.len());
    assert(texts(c@).len() == c@.len());
    if c.len() == 0 {
        return None;
    }
    let last: &String = &c[c.len() - 1];
    assert(texts(c@).last() == last@);
    if same(last.as_str(), "..") {
        return None;
    }
    if c.len() == 1 {
        let d: Vec<char> = chars_of(last.as_str());
        if d.len() == 2 && d[1] == ':' && (('a' <= d[0] && d[0] <= 'z') || ('A' <= d[0] && d[0]
            <= 'Z')) {
            return None;
        }
    }
    Some(last.clone())
}

/// What stands behind the last dot of the last component.
pub fn extension(p: &str) -> (out: Option<String>)
    ensures
        match out {
            Some(x) => extension_of(p@) == Some(x@),
            None => extension_of(p@) is None,
        },
{
    let f: String = match file_name(p) {
        Some(f) => f,
        None => return None,
    };
    let a: Vec<char> = chars_of(f.as_str());
    let mut n: usize = a.len();
    while n > 0 && a[n - 1] != '.'
        invariant
            n <= a@.len(),
            a@ == f@,
            last_dot(f@, f@.len() as int) == last_dot(f@, n as int),
        decreases n,
    {
        n -= 1;
    }
    if n <= 1 {
        None
    } else {
        assert(a@.subrange(n as int, a@.len() as int) =~= f@.skip(n as int));
        Some(string_of(&a, n, a.len()))
    }
}

pub open spec fn is_slash(c: char) -> bool {
    c == '\\' || c == '/'
}

/// Whether a path says where it is without reference to anything else: below the root
/// of a drive, on a share of a server, or in the form of a device or a long path.
pub open spec fn is_absolute(p: Seq<char>) -> bool {
    if p.len() >= 3 && is_drive(p.take(2)) {
        is_slash(p[2])
    } else if p.len() >= 4 && is_slash(p[0]) && is_slash(p[1]) {
        if is_slash(p[3]) && (p[2] == '?' || p[2] == '.') {
            true
        } else {
            let parts = pieces(p.skip(2), '\\', '/');
            parts.len() >= 2 && parts[0].len() > 0 && parts[1].len() > 0
        }
    } else {
        false
    }
}

/// Whether a path says where it is without reference to anything else.
pub fn absolute(p: &str) -> (out: bool)
    ensures
        out == is_absolute(p@),
{
    let v: Vec<char> = chars_of(p);
    if v.len() >= 3 && v[1] == ':' && (('a' <= v[0] && v[0] <= 'z') || ('A' <= v[0] && v[0]
        <= 'Z')) {
        assert(is_drive(p@.take(2)));
        return v[2] == '\\' || v[2] == '/';
    }
    assert(p@.len() >= 3 ==> !is_drive(p@.take(2)));
    if v.len() >= 4 && (v[0] == '\\' || v[0] == '/') && (v[1] == '\\' || v[1] == '/') {
        if (v[3] == '\\' || v[3] == '/') && (v[2] == '?' || v[2] == '.') {
            return true;
        }
        let parts: Vec<String> = split(skip_chars(p, 2).as_str(), '\\', '/');
        let ghost pv = pieces(p@.skip(2), '\\', '/');
        assert(pv.len() == parts@.len());
        if parts.len() >= 2 {
            assert(pv[0] == parts@[0]@ && pv[1] == parts@[1]@);
            return parts[0].as_str().unicode_len() > 0 && parts[1].as_str().unicode_len() > 0;
        }
    }
    false
}

/// A name put behind a path.
pub open spec fn behind_path(dir: Seq<char>, name: Seq<char>) -> Seq<char> {
    if dir.len() == 0 || is_slash(dir.last()) {
        dir + name
    } else {
        dir + "\\"@ + name
    }
}

/// A name put behind a path.
pub fn path_join(dir: &str, name: &str) -> (out: String)
    ensures
        out@ == behind_path(dir@, name@),
{
    let n: usize = dir.unicode_len();
    if n == 0 {
        return cat(dir, name);
    }
    let c: char = dir.get_char(n - 1);
    if c == '\\' || c == '/' {
        cat(dir, name)
    } else {
        cat3(dir, "\\", name)
    }
}

} // verus!
