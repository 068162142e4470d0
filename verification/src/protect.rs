//! Paths that must not be deleted, and what a request to delete is answered.

use crate::deletable::{long_path, to_long_path};
use crate::events::{events, lemma_events_push, progress, shown, unix_path, Event, EventV};
use crate::json::{
    array_member, escaped, json_escape, json_text, parse_json, values, Json, JsonV,
};
use crate::rulepath::Env;
use crate::text::{
    ascii_lowercase, cap64, cat, cat3, chars_of, dec, decimal, drop_empty, join, joined,
    lemma_texts_push, lowercase, nonempty, pieces, same, skip_chars, split, starts_with, string_of,
    texts, to_ascii_lower, trim, trim_trailing, trimmed, without_trailing,
};
use vstd::prelude::*;

verus! {

// ------------------------------------------------------------------- normal form

/// A path without the prefix of long paths.
pub open spec fn bare(s: Seq<char>) -> Seq<char> {
    if "\\\\?\\UNC\\"@.is_prefix_of(s) {
        "\\\\"@ + s.skip(8)
    } else if "\\\\?\\"@.is_prefix_of(s) {
        s.skip(4)
    } else {
        s
    }
}

pub open spec fn ascii_letter(c: char) -> bool {
    'a' <= c <= 'z' || 'A' <= c <= 'Z'
}

/// Whether a path starts with a drive.
pub open spec fn drive_first(s: Seq<char>) -> bool {
    s.len() >= 2 && ascii_letter(s[0]) && s[1] == ':'
}

/// The part of a path that nothing folds away, a drive or a server with a share, and
/// the pieces between separators behind it.
pub open spec fn rooted(s: Seq<char>) -> (Seq<char>, Seq<Seq<char>>) {
    if drive_first(s) {
        (s.take(2), pieces(s.skip(2), '\\', '/'))
    } else if "\\\\"@.is_prefix_of(s) {
        let parts = nonempty(pieces(s.skip(2), '\\', '/'));
        if parts.len() >= 2 {
            ("\\\\"@ + parts[0] + "\\"@ + parts[1], parts.skip(2))
        } else {
            (Seq::empty(), pieces(s, '\\', '/'))
        }
    } else {
        (Seq::empty(), pieces(s, '\\', '/'))
    }
}

/// What the first `n` components come to: `.` and empty ones are left out, and
/// `..` takes the one before it away.
pub open spec fn folded(list: Seq<Seq<char>>, n: int) -> Seq<Seq<char>>
    decreases n,
{
    if n <= 0 {
        Seq::empty()
    } else {
        let before = folded(list, n - 1);
        let c = list[n - 1];
        if c.len() == 0 || c == "."@ {
            before
        } else if c == ".."@ {
            if before.len() > 0 {
                before.drop_last()
            } else {
                before
            }
        } else {
            before.push(c)
        }
    }
}

/// The components of a path below its root.
pub open spec fn components(s: Seq<char>) -> Seq<Seq<char>> {
    let list = rooted(s).1;
    folded(list, list.len() as int)
}

/// The form in which paths are compared: without prefix, with backslashes, without
/// `.` and `..`, in lower case.
pub open spec fn normal_path(p: Seq<char>) -> Seq<char> {
    let s = bare(trimmed(p));
    let root = rooted(s).0;
    let rest = joined(components(s), "\\"@);
    if root.len() == 0 {
        lowercase(rest)
    } else {
        lowercase(root + "\\"@ + rest)
    }
}

/// What components come to: `.` and empty ones are left out, and `..` takes the one
/// before it away.
pub fn fold_components(list: &Vec<String>) -> (out: Vec<String>)
    ensures
        texts(out@) == folded(texts(list@), list@.len() as int),
{
    let mut out: Vec<String> = Vec::new();
    let mut i: usize = 0;
    assert(texts(out@) =~= Seq::empty());
    while i < list.len()
        invariant
            i <= list@.len(),
            texts(out@) == folded(texts(list@), i as int),
        decreases list@.len() - i,
    {
        let c: &String = &list[i];
        assert(texts(list@)[i as int] == c@);
        let ghost before = texts(out@);
        if c.as_str().unicode_len() == 0 || same(c.as_str(), ".") {
        } else if same(c.as_str(), "..") {
            if out.len() > 0 {
                out.pop();
                assert(texts(out@) =~= before.drop_last());
            }
        } else {
            proof {
                lemma_texts_push(out@, *c);
            }
            out.push(c.clone());
            assert(texts(out@) =~= before.push(c@));
        }
        i += 1;
    }
    out
}

/// A path without the prefix of long paths.
pub fn strip_prefix(s: &str) -> (out: String)
    ensures
        out@ == bare(s@),
{
    proof {
        reveal_strlit("\\\\?\\UNC\\");
        reveal_strlit("\\\\?\\");
    }
    if starts_with(s, "\\\\?\\UNC\\") {
        cat("\\\\", skip_chars(s, 8).as_str())
    } else if starts_with(s, "\\\\?\\") {
        skip_chars(s, 4)
    } else {
        s.to_owned()
    }
}

/// The part of a path that nothing folds away, and the pieces behind it.
pub fn split_root(s: &str) -> (out: (String, Vec<String>))
    ensures
        (out.0@, texts(out.1@)) == rooted(s@),
{
    let v: Vec<char> = chars_of(s);
    let letter: bool = v.len() >= 2 && (('a' <= v[0] && v[0] <= 'z') || ('A' <= v[0] && v[0]
        <= 'Z')) && v[1] == ':';
    assert(letter == drive_first(s@));
    if letter {
        assert(v@.subrange(0, 2) =~= s@.take(2));
        return (string_of(&v, 0, 2), split(skip_chars(s, 2).as_str(), '\\', '/'));
    }
    if starts_with(s, "\\\\") {
        proof {
            reveal_strlit("\\\\");
        }
        let parts: Vec<String> = drop_empty(split(skip_chars(s, 2).as_str(), '\\', '/'));
        let ghost list = nonempty(pieces(s@.skip(2), '\\', '/'));
        if parts.len() >= 2 {
            assert(list[0] == parts@[0]@ && list[1] == parts@[1]@);
            let mut root: String = cat("\\\\", parts[0].as_str());
            root.append("\\");
            root.append(parts[1].as_str());
            let rest: Vec<String> = behind_share(&parts);
            return (root, rest);
        }
    }
    let none: String = String::new();
    assert(none@ =~= Seq::empty());
    (none, split(s, '\\', '/'))
}

/// The pieces behind the server and the share.
fn behind_share(parts: &Vec<String>) -> (out: Vec<String>)
    requires
        parts@.len() >= 2,
    ensures
        texts(out@) == texts(parts@).skip(2),
{
    let mut out: Vec<String> = Vec::new();
    let mut i: usize = 2;
    assert(texts(out@) =~= texts(parts@).subrange(2, 2));
    while i < parts.len()
        invariant
            2 <= i <= parts@.len(),
            texts(out@) == texts(parts@).subrange(2, i as int),
        decreases parts@.len() - i,
    {
        let c: String = parts[i].clone();
        proof {
            lemma_texts_push(out@, c);
        }
        out.push(c);
        i += 1;
        assert(texts(parts@).subrange(2, i as int) =~= texts(parts@).subrange(2, i - 1).push(c@));
    }
    assert(texts(parts@).subrange(2, i as int) =~= texts(parts@).skip(2));
    out
}

/// The form in which paths are compared.
pub fn lexically_normalize(p: &str) -> (out: String)
    ensures
        out@ == normal_path(p@),
{
    let s: String = strip_prefix(trim(p).as_str());
    let (root, rest) = split_root(s.as_str());
    let tail: String = join(&fold_components(&rest), "\\");
    if root.as_str().unicode_len() == 0 {
        tail.to_lowercase()
    } else {
        cat3(root.as_str(), "\\", tail.as_str()).to_lowercase()
    }
}

// ------------------------------------------------------------------ protected roots

/// What is protected: directories with all that is below them; directories that
/// must stay but may be emptied, with all that leads to them; and directories of
/// these names at the root of any drive, with all that is below them.
#[derive(Debug)]
pub struct ProtectRoots {
    pub subtree: Vec<String>,
    pub exact: Vec<String>,
    pub any_drive: Vec<String>,
}

/// The mathematical value of what is protected.
pub ghost struct Roots {
    pub subtree: Seq<Seq<char>>,
    pub exact: Seq<Seq<char>>,
    pub any_drive: Seq<Seq<char>>,
}

/// The texts among the first `n` values, in lower case.
pub open spec fn lower_texts(list: Seq<JsonV>, n: int) -> Seq<Seq<char>>
    decreases n,
{
    if n <= 0 {
        Seq::empty()
    } else {
        match list[n - 1] {
            JsonV::Str(t) => lower_texts(list, n - 1).push(ascii_lowercase(t)),
            _ => lower_texts(list, n - 1),
        }
    }
}

/// The texts of a member that is an array, in lower case.
pub open spec fn listed_roots(v: JsonV, key: Seq<char>) -> Seq<Seq<char>> {
    match array_member(v, key) {
        Some(a) => lower_texts(a, a.len() as int),
        None => Seq::empty(),
    }
}

/// The value of a variable that is not blank.
pub open spec fn set_value(env: Env, name: Seq<char>) -> Option<Seq<char>> {
    match env.value(name) {
        Some(v) => if trimmed(v).len() == 0 {
            None
        } else {
            Some(trimmed(v))
        },
        None => None,
    }
}

/// The value of a variable, or the given text.
pub open spec fn value_or(env: Env, name: Seq<char>, other: Seq<char>) -> Seq<char> {
    match set_value(env, name) {
        Some(v) => v,
        None => other,
    }
}

/// A directory in the form of a protected root.
pub open spec fn root_form(s: Seq<char>) -> Seq<char> {
    lowercase(without_trailing(s, '\\', '/'))
}

/// The system drive.
pub open spec fn system_drive(env: Env) -> Seq<char> {
    root_form(value_or(env, "SystemDrive"@, "C:"@))
}

/// What is protected where nothing else is said.
pub open spec fn default_roots(env: Env) -> Roots {
    let drive = system_drive(env);
    let home = value_or(env, "USERPROFILE"@, drive + "\\Users"@);
    let windir = value_or(env, "WINDIR"@, drive + "\\Windows"@);
    let data = value_or(env, "PROGRAMDATA"@, drive + "\\ProgramData"@);
    let appdata = value_or(env, "APPDATA"@, home + "\\AppData\\Roaming"@);
    let local = value_or(env, "LOCALAPPDATA"@, home + "\\AppData\\Local"@);
    Roots {
        subtree: seq![
            root_form(appdata + "\\Trim"@),
            root_form(windir + "\\System32\\config"@),
        ],
        exact: seq![
            root_form(drive + "\\Windows"@),
            root_form(value_or(env, "ProgramFiles"@, drive + "\\Program Files"@)),
            root_form(value_or(env, "ProgramFiles(x86)"@, drive + "\\Program Files (x86)"@)),
            root_form(data),
            root_form(home),
            root_form(home + "\\Desktop"@),
            root_form(home + "\\Documents"@),
            root_form(home + "\\Downloads"@),
            root_form(appdata),
            root_form(local),
        ],
        any_drive: seq!["system volume information"@],
    }
}

/// What is protected: as given, or the default where nothing is given that can be
/// read.
pub open spec fn roots_of(given: Option<Seq<char>>, env: Env) -> Roots {
    match given {
        Some(text) => match json_text(text) {
            Ok(v) => Roots {
                subtree: listed_roots(v, "subtree"@),
                exact: listed_roots(v, "exact"@),
                any_drive: listed_roots(v, "anyDrive"@),
            },
            Err(_) => default_roots(env),
        },
        None => default_roots(env),
    }
}

fn env_nonempty(env: &Env, name: &str) -> (out: Option<String>)
    ensures
        match out {
            Some(v) => set_value(*env, name@) == Some(v@),
            None => set_value(*env, name@) is None,
        },
{
    match env.get(name) {
        Some(v) => {
            let t: String = trim(v.as_str());
            if t.as_str().unicode_len() == 0 {
                None
            } else {
                Some(t)
            }
        },
        None => None,
    }
}

fn env_or(env: &Env, name: &str, other: String) -> (out: String)
    ensures
        out@ == value_or(*env, name@, other@),
{
    match env_nonempty(env, name) {
        Some(v) => v,
        None => other,
    }
}

fn as_root(s: &str) -> (out: String)
    ensures
        out@ == root_form(s@),
{
    trim_trailing(s, '\\', '/').to_lowercase()
}

fn read_roots(v: &Json, key: &str) -> (out: Vec<String>)
    ensures
        texts(out@) == listed_roots(v.view(), key@),
{
    let mut out: Vec<String> = Vec::new();
    assert(texts(out@) =~= Seq::empty());
    match v.array(key) {
        Some(a) => {
            let ghost list = values(a@);
            let mut i: usize = 0;
            while i < a.len()
                invariant
                    i <= a@.len(),
                    list == values(a@),
                    texts(out@) == lower_texts(list, i as int),
                decreases a@.len() - i,
            {
                assert(list[i as int] == a@[i as int].view());
                match a[i].as_str() {
                    Some(t) => {
                        let low: String = to_ascii_lower(t);
                        proof {
                            lemma_texts_push(out@, low);
                        }
                        let ghost before = texts(out@);
                        out.push(low);
                        assert(texts(out@) =~= before.push(low@));
                    },
                    None => {},
                }
                i += 1;
            }
        },
        None => {},
    }
    out
}

impl ProtectRoots {
    pub open spec fn view(self) -> Roots {
        Roots {
            subtree: texts(self.subtree@),
            exact: texts(self.exact@),
            any_drive: texts(self.any_drive@),
        }
    }

    /// What a text says is protected, the default where it cannot be read.
    pub fn from_protect_json(text: &str, env: &Env) -> (out: Self)
        ensures
            out.view() == roots_of(Some(text@), *env),
    {
        match parse_json(text) {
            Ok(v) => ProtectRoots {
                subtree: read_roots(&v, "subtree"),
                exact: read_roots(&v, "exact"),
                any_drive: read_roots(&v, "anyDrive"),
            },
            Err(_) => ProtectRoots::default_from_env(env),
        }
    }

    /// What is protected where nothing else is said.
    pub fn default_from_env(env: &Env) -> (out: Self)
        ensures
            out.view() == default_roots(*env),
    {
        let drive: String = as_root(env_or(env, "SystemDrive", "C:".to_owned()).as_str());
        let d: &str = drive.as_str();
        let home: String = env_or(env, "USERPROFILE", cat(d, "\\Users"));
        let h: &str = home.as_str();
        let windir: String = env_or(env, "WINDIR", cat(d, "\\Windows"));
        let data: String = env_or(env, "PROGRAMDATA", cat(d, "\\ProgramData"));
        let appdata: String = env_or(env, "APPDATA", cat(h, "\\AppData\\Roaming"));
        let local: String = env_or(env, "LOCALAPPDATA", cat(h, "\\AppData\\Local"));
        let mut subtree: Vec<String> = Vec::new();
        subtree.push(as_root(cat(appdata.as_str(), "\\Trim").as_str()));
        subtree.push(as_root(cat(windir.as_str(), "\\System32\\config").as_str()));
        let mut exact: Vec<String> = Vec::new();
        exact.push(as_root(cat(d, "\\Windows").as_str()));
        exact.push(as_root(env_or(env, "ProgramFiles", cat(d, "\\Program Files")).as_str()));
        exact.push(
            as_root(env_or(env, "ProgramFiles(x86)", cat(d, "\\Program Files (x86)")).as_str()),
        );
        exact.push(as_root(data.as_str()));
        exact.push(as_root(h));
        exact.push(as_root(cat(h, "\\Desktop").as_str()));
        exact.push(as_root(cat(h, "\\Documents").as_str()));
        exact.push(as_root(cat(h, "\\Downloads").as_str()));
        exact.push(as_root(appdata.as_str()));
        exact.push(as_root(local.as_str()));
        let mut any_drive: Vec<String> = Vec::new();
        any_drive.push("system volume information".to_owned());
        let out: ProtectRoots = ProtectRoots { subtree, exact, any_drive };
        assert(out.view().subtree =~= default_roots(*env).subtree);
        assert(out.view().exact =~= default_roots(*env).exact);
        assert(out.view().any_drive =~= default_roots(*env).any_drive);
        out
    }

    /// What is protected: as given, or the default.
    pub fn from_given(given: Option<&str>, env: &Env) -> (out: Self)
        ensures
            out.view() == roots_of(
                match given {
                    Some(t) => Some(t@),
                    None => None,
                },
                *env,
            ),
    {
        match given {
            Some(t) => ProtectRoots::from_protect_json(t, env),
            None => ProtectRoots::default_from_env(env),
        }
    }
}

// ------------------------------------------------------------------- the judgement

pub open spec fn ascii_digit(c: char) -> bool {
    '0' <= c <= '9'
}

/// Whether a path still holds a shortened name: a tilde followed by a digit.
pub open spec fn short_name(s: Seq<char>) -> bool {
    exists|i: int| 0 <= i && i + 1 < s.len() && #[trigger] s[i] == '~' && ascii_digit(s[i + 1])
}

/// Whether a path is a directory or below it.
pub open spec fn at_or_below(p: Seq<char>, root: Seq<char>) -> bool {
    p == root || (root + "\\"@).is_prefix_of(p)
}

/// Whether a path is a drive or the root of one.
pub open spec fn drive_only(s: Seq<char>) -> bool {
    ||| s.len() == 2 && ascii_letter(s[0]) && s[1] == ':'
    ||| s.len() == 3 && (s[0] as u32) < 128 && s[1] == ':' && s[2] == '\\'
}

/// Whether a path is on a drive, with something below the root.
pub open spec fn on_drive(s: Seq<char>) -> bool {
    s.len() >= 3 && (s[0] as u32) < 128 && s[1] == ':' && s[2] == '\\'
}

/// Whether a path in normal form is covered by what is protected.
pub open spec fn covered(norm: Seq<char>, r: Roots) -> bool {
    ||| exists|i: int|
        0 <= i < r.any_drive.len() && (#[trigger] r.any_drive[i]).len() > 0 && on_drive(norm)
            && at_or_below(norm.skip(3), r.any_drive[i])
    ||| exists|i: int| 0 <= i < r.subtree.len() && at_or_below(norm, #[trigger] r.subtree[i])
    ||| exists|i: int|
        0 <= i < r.exact.len() && at_or_below(#[trigger] r.exact[i], norm)
}

/// Whether a path in normal form must not be deleted. What cannot be judged must
/// not be deleted either.
pub open spec fn protected_norm(norm: Seq<char>, r: Roots) -> bool {
    norm.len() == 0 || drive_only(norm) || short_name(norm) || covered(norm, r)
}

/// Whether a path must not be deleted, given its long form where there is one.
pub open spec fn protected_path(
    p: Seq<char>,
    long: Option<String>,
    given: Option<Seq<char>>,
    env: Env,
) -> bool {
    protected_norm(normal_path(long_path(p, long)), roots_of(given, env))
}

/// Whether a path still holds a shortened name.
pub fn contains_short_name(norm: &str) -> (out: bool)
    ensures
        out == short_name(norm@),
{
    let v: Vec<char> = chars_of(norm);
    let mut i: usize = 0;
    while i < v.len() && v.len() - i > 1
        invariant
            i <= v@.len(),
            v@ == norm@,
            forall|k: int| 0 <= k < i && k + 1 < v@.len() ==> !(#[trigger] v@[k] == '~'
                && ascii_digit(v@[k + 1])),
        decreases v@.len() - i,
    {
        if v[i] == '~' && '0' <= v[i + 1] && v[i + 1] <= '9' {
            assert(norm@[i as int] == '~' && ascii_digit(norm@[i + 1]));
            return true;
        }
        i += 1;
    }
    false
}

fn is_at_or_below(p: &str, root: &str) -> (out: bool)
    ensures
        out == at_or_below(p@, root@),
{
    same(p, root) || starts_with(p, cat(root, "\\").as_str())
}

fn is_covered(norm: &str, r: &ProtectRoots) -> (out: bool)
    ensures
        out == covered(norm@, r.view()),
{
    let v: Vec<char> = chars_of(norm);
    if v.len() >= 3 && (v[0] as u32) < 128 && v[1] == ':' && v[2] == '\\' {
        let tail: String = skip_chars(norm, 3);
        let mut i: usize = 0;
        while i < r.any_drive.len()
            invariant
                i <= r.any_drive@.len(),
                on_drive(norm@),
                tail@ == norm@.skip(3),
                forall|k: int|
                    0 <= k < i ==> !((#[trigger] r.view().any_drive[k]).len() > 0 && at_or_below(
                        tail@,
                        r.view().any_drive[k],
                    )),
            decreases r.any_drive@.len() - i,
        {
            let nm: &str = r.any_drive[i].as_str();
            assert(r.view().any_drive[i as int] == nm@);
            if nm.unicode_len() > 0 && is_at_or_below(tail.as_str(), nm) {
                return true;
            }
            i += 1;
        }
    }
    let mut k: usize = 0;
    while k < r.subtree.len()
        invariant
            k <= r.subtree@.len(),
            forall|j: int| 0 <= j < k ==> !at_or_below(norm@, #[trigger] r.view().subtree[j]),
        decreases r.subtree@.len() - k,
    {
        assert(r.view().subtree[k as int] == r.subtree@[k as int]@);
        if is_at_or_below(norm, r.subtree[k].as_str()) {
            return true;
        }
        k += 1;
    }
    let mut e: usize = 0;
    while e < r.exact.len()
        invariant
            e <= r.exact@.len(),
            forall|j: int| 0 <= j < e ==> !at_or_below(#[trigger] r.view().exact[j], norm@),
        decreases r.exact@.len() - e,
    {
        assert(r.view().exact[e as int] == r.exact@[e as int]@);
        if is_at_or_below(r.exact[e].as_str(), norm) {
            return true;
        }
        e += 1;
    }
    false
}

/// Whether a path in normal form must not be deleted.
pub fn is_protected_norm(norm: &str, r: &ProtectRoots) -> (out: bool)
    ensures
        out == protected_norm(norm@, r.view()),
{
    let v: Vec<char> = chars_of(norm);
    if v.len() == 0 {
        return true;
    }
    if v.len() == 2 && (('a' <= v[0] && v[0] <= 'z') || ('A' <= v[0] && v[0] <= 'Z')) && v[1]
        == ':' {
        return true;
    }
    if v.len() == 3 && (v[0] as u32) < 128 && v[1] == ':' && v[2] == '\\' {
        return true;
    }
    contains_short_name(norm) || is_covered(norm, r)
}

/// Whether a path must not be deleted. Where the system knows a long form of the
/// path, that form is judged.
pub fn is_protected_path(p: &str, long: &Option<String>, protect_json: Option<&str>, env: &Env) -> (out:
    bool)
    ensures
        out == protected_path(
            p@,
            *long,
            match protect_json {
                Some(t) => Some(t@),
                None => None,
            },
            *env,
        ),
{
    let norm: String = lexically_normalize(to_long_path(p, long).as_str());
    is_protected_norm(norm.as_str(), &ProtectRoots::from_given(protect_json, env))
}

/// The judgement of each of a list of paths with their long forms.
pub fn protect_flags(
    protect_json: Option<&str>,
    vectors: &Vec<(String, Option<String>)>,
    env: &Env,
) -> (out: Vec<bool>)
    ensures
        out@.len() == vectors@.len(),
        forall|i: int|
            0 <= i < out@.len() ==> (#[trigger] out@[i]) == protected_path(
                vectors@[i].0@,
                vectors@[i].1,
                match protect_json {
                    Some(t) => Some(t@),
                    None => None,
                },
                *env,
            ),
{
    let roots: ProtectRoots = ProtectRoots::from_given(protect_json, env);
    let mut out: Vec<bool> = Vec::new();
    let mut i: usize = 0;
    while i < vectors.len()
        invariant
            i <= vectors@.len(),
            out@.len() == i,
            roots.view() == roots_of(
                match protect_json {
                    Some(t) => Some(t@),
                    None => None,
                },
                *env,
            ),
            forall|k: int|
                0 <= k < i ==> (#[trigger] out@[k]) == protected_path(
                    vectors@[k].0@,
                    vectors@[k].1,
                    match protect_json {
                        Some(t) => Some(t@),
                        None => None,
                    },
                    *env,
                ),
        decreases vectors@.len() - i,
    {
        let long: String = to_long_path(vectors[i].0.as_str(), &vectors[i].1);
        let norm: String = lexically_normalize(long.as_str());
        out.push(is_protected_norm(norm.as_str(), &roots));
        i += 1;
    }
    out
}

// ------------------------------------------------------------------------- deletion

/// Something that is to be deleted: a file or a directory (`kind`), its path as
/// text, whether the text stands for the name exactly (`exact_name`), the long
/// form of the path where there is one, whether it is a link, and its size.
#[derive(Debug)]
pub struct Target {
    pub kind: String,
    pub path: String,
    pub exact_name: bool,
    pub long: Option<String>,
    pub reparse: bool,
    pub size: u64,
}

/// What became of moving something to the recycle bin.
#[derive(Debug)]
pub enum Trash {
    Moved,
    Failed(String),
    Unsupported,
}

/// Why a deletion is refused: the message and the mode it is reported with.
pub open spec fn refusal(t: Target, r: Roots) -> Option<(Seq<char>, Seq<char>)> {
    if !t.exact_name {
        Some(
            (
                "文件名含无法无损解码的字符，保护清单判定不可靠，已拒绝删除"@,
                "unrecoverable-name"@,
            ),
        )
    } else if protected_norm(normal_path(long_path(t.path@, t.long)), r) {
        Some(("受保护的系统路径，已拒绝"@, "rejected"@))
    } else if t.reparse {
        Some(("目标是链接/junction（reparse point），已拒绝"@, "rejected"@))
    } else {
        None
    }
}

/// The line that reports the outcome for one target.
pub open spec fn outcome_text(
    t: Target,
    status: Seq<char>,
    freed: nat,
    message: Seq<char>,
    mode: Seq<char>,
) -> Seq<char> {
    "@@ITEM@@{\"type\":\"delresult\",\"path\":\""@ + escaped(shown(t.path@)) + "\",\"kind\":\""@
        + t.kind@ + "\",\"status\":\""@ + status + "\",\"freed\":"@ + dec(freed) + ",\"mode\":\""@
        + mode + "\",\"message\":\""@ + escaped(message) + "\"}\n"@
}

/// Why something was not moved to the recycle bin.
pub open spec fn trash_reason(o: Trash) -> Seq<char> {
    match o {
        Trash::Moved => Seq::empty(),
        Trash::Failed(why) => "回收站失败: "@ + why@,
        Trash::Unsupported => "非 Windows 平台无回收站语义，已拒绝删除（不降级为永久删除）"@,
    }
}

/// The report of the outcome for one target. What is refused is reported so,
/// whatever would have become of it; nothing is freed unless it was moved.
pub open spec fn outcome_event(t: Target, r: Roots, o: Trash) -> EventV {
    EventV::Item {
        path: t.path@,
        line: match refusal(t, r) {
            Some((message, mode)) => outcome_text(t, "fail"@, 0, message, mode),
            None => match o {
                Trash::Moved => outcome_text(
                    t,
                    "ok"@,
                    t.size as nat,
                    "已移入回收站"@,
                    "recycled"@,
                ),
                _ => outcome_text(t, "fail"@, 0, trash_reason(o), "trash-failed"@),
            },
        },
    }
}

/// Whether a target was moved to the recycle bin.
pub open spec fn moved(t: Target, r: Roots, o: Trash) -> bool {
    refusal(t, r) is None && o is Moved
}

/// How many targets were moved, how many not, and how many bytes were freed.
#[derive(Debug)]
pub struct Tally {
    pub ok: u64,
    pub fail: u64,
    pub freed: u64,
}

/// The counts after one more target.
pub open spec fn counted(n: Tally, t: Target, r: Roots, o: Trash) -> Tally {
    if moved(t, r, o) {
        Tally {
            ok: cap64((n.ok + 1) as nat) as u64,
            fail: n.fail,
            freed: cap64((n.freed + t.size) as nat) as u64,
        }
    } else {
        Tally { ok: n.ok, fail: cap64((n.fail + 1) as nat) as u64, freed: n.freed }
    }
}

/// The line that sums a run up.
pub open spec fn summary_text(n: Tally) -> Seq<char> {
    "[finder-delete] ok="@ + dec(n.ok as nat) + " fail="@ + dec(n.fail as nat) + " freed="@ + dec(
        n.freed as nat,
    )
}

fn find_refusal(t: &Target, r: &ProtectRoots) -> (out: Option<(&'static str, &'static str)>)
    ensures
        match out {
            Some(p) => refusal(*t, r.view()) == Some((p.0@, p.1@)),
            None => refusal(*t, r.view()) is None,
        },
{
    if !t.exact_name {
        return Some(
            (
                "文件名含无法无损解码的字符，保护清单判定不可靠，已拒绝删除",
                "unrecoverable-name",
            ),
        );
    }
    let norm: String = lexically_normalize(to_long_path(t.path.as_str(), &t.long).as_str());
    if is_protected_norm(norm.as_str(), r) {
        return Some(("受保护的系统路径，已拒绝", "rejected"));
    }
    if t.reparse {
        return Some(("目标是链接/junction（reparse point），已拒绝", "rejected"));
    }
    None
}

fn del_item(t: &Target, status: &str, freed: u64, message: &str, mode: &str) -> (out: Event)
    ensures
        out.view() == (EventV::Item {
            path: t.path@,
            line: outcome_text(*t, status@, freed as nat, message@, mode@),
        }),
{
    let mut s: String = "@@ITEM@@{\"type\":\"delresult\",\"path\":\"".to_owned();
    s.append(json_escape(unix_path(t.path.as_str()).as_str()).as_str());
    s.append("\",\"kind\":\"");
    s.append(t.kind.as_str());
    s.append("\",\"status\":\"");
    s.append(status);
    s.append("\",\"freed\":");
    s.append(decimal(freed).as_str());
    s.append(",\"mode\":\"");
    s.append(mode);
    s.append("\",\"message\":\"");
    s.append(json_escape(message).as_str());
    s.append("\"}\n");
    Event::Item { path: t.path.clone(), line: s }
}

/// Whether a deletion may go ahead. Nothing may be moved before this was asked.
pub fn may_delete(t: &Target, r: &ProtectRoots) -> (out: bool)
    ensures
        out == (refusal(*t, r.view()) is None),
{
    match find_refusal(t, r) {
        Some(_) => false,
        None => true,
    }
}

/// Reports and counts the outcome for one target.
pub fn delete_outcome(
    t: &Target,
    r: &ProtectRoots,
    o: &Trash,
    n: &mut Tally,
    out: &mut Vec<Event>,
)
    ensures
        events(final(out)@) == events(old(out)@).push(outcome_event(*t, r.view(), *o)),
        *final(n) == counted(*old(n), *t, r.view(), *o),
{
    let e: Event = match find_refusal(t, r) {
        Some((message, mode)) => {
            n.fail = n.fail.saturating_add(1);
            del_item(t, "fail", 0, message, mode)
        },
        None => match o {
            Trash::Moved => {
                n.ok = n.ok.saturating_add(1);
                n.freed = n.freed.saturating_add(t.size);
                del_item(t, "ok", t.size, "已移入回收站", "recycled")
            },
            Trash::Failed(why) => {
                n.fail = n.fail.saturating_add(1);
                let m: String = cat("回收站失败: ", why.as_str());
                del_item(t, "fail", 0, m.as_str(), "trash-failed")
            },
            Trash::Unsupported => {
                n.fail = n.fail.saturating_add(1);
                del_item(
                    t,
                    "fail",
                    0,
                    "非 Windows 平台无回收站语义，已拒绝删除（不降级为永久删除）",
                    "trash-failed",
                )
            },
        },
    };
    proof {
        lemma_events_push(out@, e);
    }
    out.push(e);
}

/// Sums a run up, and reports that it is done.
pub fn delete_summary(n: &Tally, out: &mut Vec<Event>) -> (line: String)
    ensures
        line@ == summary_text(*n),
        events(final(out)@) == events(old(out)@).push(EventV::Progress(100)),
{
    let mut s: String = "[finder-delete] ok=".to_owned();
    s.append(decimal(n.ok).as_str());
    s.append(" fail=");
    s.append(decimal(n.fail).as_str());
    s.append(" freed=");
    s.append(decimal(n.freed).as_str());
    let done: Event = progress(100);
    proof {
        lemma_events_push(out@, done);
    }
    out.push(done);
    s
}

// ------------------------------------------------------------------------------ laws

/// A drive, the root of a drive, an empty path and a path with a shortened name are
/// protected, whatever the lists say.
pub proof fn law_always_protected(norm: Seq<char>, r: Roots)
    requires
        norm.len() == 0 || drive_only(norm) || short_name(norm),
    ensures
        protected_norm(norm, r),
{
}

/// Everything below a protected subtree is protected.
pub proof fn law_subtree(norm: Seq<char>, rest: Seq<char>, r: Roots, i: int)
    requires
        0 <= i < r.subtree.len(),
        norm == r.subtree[i] || norm == r.subtree[i] + "\\"@ + rest,
    ensures
        protected_norm(norm, r),
{
    let t = r.subtree[i];
    if norm != t {
        assert((t + "\\"@) =~= norm.take((t + "\\"@).len() as int));
    }
    assert(at_or_below(norm, r.subtree[i]));
}

/// A directory that must stay, and every directory that leads to it, is protected.
pub proof fn law_exact(norm: Seq<char>, rest: Seq<char>, r: Roots, i: int)
    requires
        0 <= i < r.exact.len(),
        r.exact[i] == norm || r.exact[i] == norm + "\\"@ + rest,
    ensures
        protected_norm(norm, r),
{
    let e = r.exact[i];
    if norm != e {
        assert((norm + "\\"@) =~= e.take((norm + "\\"@).len() as int));
    }
    assert(at_or_below(r.exact[i], norm));
}

/// What is protected stays so when the lists grow.
pub proof fn law_more_roots(norm: Seq<char>, r: Roots, more: Roots)
    requires
        r.subtree.is_prefix_of(more.subtree),
        r.exact.is_prefix_of(more.exact),
        r.any_drive.is_prefix_of(more.any_drive),
        protected_norm(norm, r),
    ensures
        protected_norm(norm, more),
{
    if covered(norm, r) {
        if exists|i: int|
            0 <= i < r.any_drive.len() && (#[trigger] r.any_drive[i]).len() > 0 && on_drive(norm)
                && at_or_below(norm.skip(3), r.any_drive[i]) {
            let i = choose|i: int|
                0 <= i < r.any_drive.len() && (#[trigger] r.any_drive[i]).len() > 0 && on_drive(
                    norm,
                ) && at_or_below(norm.skip(3), r.any_drive[i]);
            assert(more.any_drive[i] == r.any_drive[i]);
        } else if exists|i: int|
            0 <= i < r.subtree.len() && at_or_below(norm, #[trigger] r.subtree[i]) {
            let i = choose|i: int|
                0 <= i < r.subtree.len() && at_or_below(norm, #[trigger] r.subtree[i]);
            assert(more.subtree[i] == r.subtree[i]);
        } else {
            let i = choose|i: int|
                0 <= i < r.exact.len() && at_or_below(#[trigger] r.exact[i], norm);
            assert(more.exact[i] == r.exact[i]);
        }
    }
}

/// The components of a normal path are never empty, `.` or `..`.
pub proof fn law_no_dots(list: Seq<Seq<char>>, n: int)
    requires
        0 <= n <= list.len(),
    ensures
        forall|i: int|
            0 <= i < folded(list, n).len() ==> (#[trigger] folded(list, n)[i]).len() > 0 && folded(
                list,
                n,
            )[i] != "."@ && folded(list, n)[i] != ".."@,
    decreases n,
{
    if n > 0 {
        law_no_dots(list, n - 1);
        let before = folded(list, n - 1);
        assert forall|i: int| 0 <= i < folded(list, n).len() implies (#[trigger] folded(
            list,
            n,
        )[i]).len() > 0 && folded(list, n)[i] != "."@ && folded(list, n)[i] != ".."@ by {
            if i < before.len() {
                assert(before[i].len() > 0);
            }
        }
    }
}

/// Nothing that is refused is counted as moved, and nothing is freed by what was
/// not moved to the recycle bin.
pub proof fn law_refused_frees_nothing(n: Tally, t: Target, r: Roots, o: Trash)
    requires
        refusal(t, r) is Some || !(o is Moved),
    ensures
        counted(n, t, r, o).ok == n.ok,
        counted(n, t, r, o).freed == n.freed,
{
}

} // verus!
