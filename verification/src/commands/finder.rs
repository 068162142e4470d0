//! The search for files: what a search is asked for, what it has found, what of it may
//! be deleted, and what is answered.

use crate::commands::cleanup_execute::{fold_path, folded_path};
use crate::commands::reply::{grant, granted, refuse, refused};
use crate::deletable::{long_path, to_long_path};
use crate::json::{member, text_member, values, Json, JsonV};
use crate::order::{law_ranked, order_desc, ranked};
use crate::protect::{
    bare, drive_first, is_protected_norm, lexically_normalize, normal_path, protected_norm,
    strip_prefix, ProtectRoots, Roots,
};
use crate::rulepath::Env;
use crate::text::{
    behind, cap64, cat, cat3, chars_of, dec, lemma_texts_push, lowercase, replace_char, replaced,
    same, string_of, strip_front, texts, trim, trimmed,
};
use crate::value::{
    compact, compact_text, copy_json, given_size, jarray, jcount, json_in, jtext,
    lemma_values_push, read_json, size_given, size_in, size_of_value, Fields,
};
use vstd::hash_map::StringHashMap;
use vstd::prelude::*;

verus! {

// --------------------------------------------------------------- what a search is asked

/// The kinds of search.
#[derive(Debug, Clone, Copy, PartialEq, Eq, Structural)]
pub enum ScanKind {
    Duplicates,
    BigFiles,
    Empty,
    AppData,
}

/// The kind of search that a name stands for.
pub open spec fn kind_named(s: Seq<char>) -> Option<ScanKind> {
    if s == "duplicates"@ {
        Some(ScanKind::Duplicates)
    } else if s == "bigfiles"@ {
        Some(ScanKind::BigFiles)
    } else if s == "empty"@ {
        Some(ScanKind::Empty)
    } else if s == "appdata"@ {
        Some(ScanKind::AppData)
    } else {
        None
    }
}

/// The kind of search that a name stands for; otherwise the reply.
pub fn scan_kind(s: &str) -> (out: Result<ScanKind, Json>)
    ensures
        match out {
            Ok(k) => kind_named(s@) == Some(k),
            Err(r) => kind_named(s@) is None && r.view() == refused("未知扫描类型"@),
        },
{
    if same(s, "duplicates") {
        Ok(ScanKind::Duplicates)
    } else if same(s, "bigfiles") {
        Ok(ScanKind::BigFiles)
    } else if same(s, "empty") {
        Ok(ScanKind::Empty)
    } else if same(s, "appdata") {
        Ok(ScanKind::AppData)
    } else {
        Err(refuse("未知扫描类型"))
    }
}

/// How many directories a search may start from.
pub const FINDER_PATHS_MAX: usize = 50;

/// How long the path of a directory may be.
pub const FINDER_PATH_MAX_LEN: usize = 400;

/// A value as a text.
pub open spec fn as_text(v: JsonV) -> Seq<char> {
    match v {
        JsonV::Str(t) => t,
        _ => compact(v),
    }
}

/// A value as a text.
pub fn js_string(v: &Json) -> (out: String)
    ensures
        out@ == as_text(v.view()),
{
    match v {
        Json::Str(t) => t.clone(),
        _ => compact_text(v),
    }
}

/// The position of the first percent sign at or after `i`.
pub open spec fn percent_at(s: Seq<char>, i: int) -> int
    decreases s.len() - i,
{
    if i < 0 || i >= s.len() || s[i] == '%' {
        i
    } else {
        percent_at(s, i + 1)
    }
}

/// The text from `i` on with variables in place of their names between percent signs.
/// A name that no variable has stays as it is.
pub open spec fn with_vars(s: Seq<char>, i: int, env: Env) -> Seq<char>
    decreases s.len() - i,
{
    if i < 0 || i >= s.len() {
        Seq::empty()
    } else if s[i] != '%' {
        seq![s[i]] + with_vars(s, i + 1, env)
    } else {
        let j = percent_at(s, i + 1);
        if j <= i || j >= s.len() {
            s.skip(i)
        } else {
            let name = s.subrange(i + 1, j);
            let value = match env.value(name) {
                Some(v) => if name.len() > 0 {
                    v
                } else {
                    "%%"@
                },
                None => "%"@ + name + "%"@,
            };
            value + with_vars(s, j + 1, env)
        }
    }
}

/// A path with variables in place of their names between percent signs.
pub fn expand_vars(p: &str, env: &Env) -> (out: String)
    ensures
        out@ == with_vars(p@, 0, *env),
{
    let s: Vec<char> = chars_of(p);
    let mut out: String = String::new();
    let mut i: usize = 0;
    assert(out@ + with_vars(p@, 0, *env) =~= with_vars(p@, 0, *env));
    while i < s.len()
        invariant
            i <= s@.len(),
            s@ == p@,
            out@ + with_vars(p@, i as int, *env) == with_vars(p@, 0, *env),
        decreases s@.len() - i,
    {
        let ghost rest = with_vars(p@, i as int, *env);
        let ghost before = out@;
        if s[i] != '%' {
            out.push(s[i]);
            i += 1;
            assert(out@ + with_vars(p@, i as int, *env) =~= before + rest);
        } else {
            let mut j: usize = i + 1;
            while j < s.len() && s[j] != '%'
                invariant
                    i < j <= s@.len(),
                    s@ == p@,
                    percent_at(p@, i + 1) == percent_at(p@, j as int),
                decreases s@.len() - j,
            {
                j += 1;
            }
            if j == s.len() {
                let tail: String = string_of(&s, i, j);
                assert(tail@ =~= p@.skip(i as int));
                out.append(tail.as_str());
                i = j;
                assert(out@ + with_vars(p@, i as int, *env) =~= before + rest);
            } else {
                let name: String = string_of(&s, i + 1, j);
                match env.get(name.as_str()) {
                    Some(v) => {
                        if name.as_str().unicode_len() > 0 {
                            out.append(v.as_str());
                        } else {
                            out.append("%%");
                        }
                    },
                    None => {
                        out.append(cat3("%", name.as_str(), "%").as_str());
                    },
                }
                i = j + 1;
                assert(out@ + with_vars(p@, i as int, *env) =~= before + rest);
            }
        }
    }
    assert(out@ =~= with_vars(p@, 0, *env));
    out
}

/// The directories among the first `n` values: without the white space around them,
/// none that is empty or too long, as many as a search may start from.
pub open spec fn start_dirs(list: Seq<JsonV>, env: Env, n: int) -> Seq<Seq<char>>
    decreases n,
{
    if n <= 0 {
        Seq::empty()
    } else {
        let before = start_dirs(list, env, n - 1);
        let t = trimmed(as_text(list[n - 1]));
        if t.len() == 0 || t.len() > FINDER_PATH_MAX_LEN || before.len() >= FINDER_PATHS_MAX {
            before
        } else {
            before.push(with_vars(t, 0, env))
        }
    }
}

/// The directories that a search is asked to start from.
pub fn scan_dirs(list: &Vec<Json>, env: &Env) -> (out: Vec<String>)
    ensures
        texts(out@) == start_dirs(values(list@), *env, list@.len() as int),
{
    let ghost lv = values(list@);
    let mut out: Vec<String> = Vec::new();
    let mut i: usize = 0;
    assert(texts(out@) =~= Seq::empty());
    while i < list.len()
        invariant
            i <= list@.len(),
            lv == values(list@),
            texts(out@) == start_dirs(lv, *env, i as int),
        decreases list@.len() - i,
    {
        assert(lv[i as int] == list@[i as int].view());
        assert(texts(out@).len() == out@.len());
        let t: String = trim(js_string(&list[i]).as_str());
        let n: usize = t.as_str().unicode_len();
        if n > 0 && n <= FINDER_PATH_MAX_LEN && out.len() < FINDER_PATHS_MAX {
            let e: String = expand_vars(t.as_str(), env);
            proof {
                lemma_texts_push(out@, e);
            }
            let ghost before = texts(out@);
            out.push(e);
            assert(texts(out@) =~= before.push(e@));
        }
        i += 1;
    }
    out
}

/// The directories that are searched for duplicates where none are named.
pub open spec fn default_dirs() -> Seq<Seq<char>> {
    seq![
        "%USERPROFILE%\\Downloads"@,
        "%USERPROFILE%\\Desktop"@,
        "%USERPROFILE%\\Documents"@,
        "%USERPROFILE%\\Pictures"@,
    ]
}

/// The directories that are searched for duplicates where none are named.
pub fn default_dup_dirs(env: &Env) -> (out: Vec<String>)
    ensures
        texts(out@) == Seq::new(4, |i: int| with_vars(default_dirs()[i], 0, *env)),
{
    let mut out: Vec<String> = Vec::new();
    out.push(expand_vars("%USERPROFILE%\\Downloads", env));
    out.push(expand_vars("%USERPROFILE%\\Desktop", env));
    out.push(expand_vars("%USERPROFILE%\\Documents", env));
    out.push(expand_vars("%USERPROFILE%\\Pictures", env));
    assert(texts(out@) =~= Seq::new(4, |i: int| with_vars(default_dirs()[i], 0, *env)));
    out
}

/// The numbers that go with a search: the smallest size, how many files, and the
/// smallest size in mebibytes.
#[derive(Debug, Clone, Copy, PartialEq, Eq, Structural)]
pub struct ScanNumbers {
    pub min_size: u64,
    pub count: u64,
    pub min_size_mb: u64,
}

/// A number that is given, at least `low`; `other` where there is none or it is zero.
pub open spec fn number_or(v: Option<JsonV>, other: int, low: int) -> int {
    match given_size(v) {
        Some(n) => if n < low {
            low
        } else {
            n
        },
        None => other,
    }
}

/// The numbers that go with a search; each kind of search has its own.
pub open spec fn numbers_for(
    k: ScanKind,
    min_size: Option<JsonV>,
    count: Option<JsonV>,
    min_size_mb: Option<JsonV>,
) -> ScanNumbers {
    ScanNumbers {
        min_size: if k == ScanKind::Duplicates {
            number_or(min_size, 0, 0) as u64
        } else {
            0
        },
        count: if k == ScanKind::BigFiles {
            number_or(count, 50, 1) as u64
        } else {
            50
        },
        min_size_mb: if k == ScanKind::AppData {
            number_or(min_size_mb, 10, 1) as u64
        } else {
            10
        },
    }
}

fn take_number(v: &Option<Json>, other: u64, low: u64) -> (out: u64)
    requires
        low <= other,
    ensures
        out == number_or(
            match v {
                Some(j) => Some(j.view()),
                None => None,
            },
            other as int,
            low as int,
        ),
{
    let given: Option<&Json> = match v {
        Some(j) => Some(j),
        None => None,
    };
    match size_given(given) {
        Some(n) => if n < low {
            low
        } else {
            n
        },
        None => other,
    }
}

/// The numbers that go with a search.
pub fn scan_numbers(
    k: ScanKind,
    min_size: &Option<Json>,
    count: &Option<Json>,
    min_size_mb: &Option<Json>,
) -> (out: ScanNumbers)
    ensures
        out == numbers_for(
            k,
            match min_size {
                Some(j) => Some(j.view()),
                None => None,
            },
            match count {
                Some(j) => Some(j.view()),
                None => None,
            },
            match min_size_mb {
                Some(j) => Some(j.view()),
                None => None,
            },
        ),
{
    ScanNumbers {
        min_size: if k == ScanKind::Duplicates {
            take_number(min_size, 0, 0)
        } else {
            0
        },
        count: if k == ScanKind::BigFiles {
            take_number(count, 50, 1)
        } else {
            50
        },
        min_size_mb: if k == ScanKind::AppData {
            take_number(min_size_mb, 10, 1)
        } else {
            10
        },
    }
}

/// Why a search does not start: `asked` says how many directories it was asked to start
/// from, `found` how many of these, or of the default ones, are there.
pub open spec fn start_refusal(k: ScanKind, asked: nat, found: nat) -> Option<Seq<char>> {
    match k {
        ScanKind::Duplicates => if found > 0 {
            None
        } else if asked == 0 {
            Some(
                "默认扫描目录均不存在（Downloads/Desktop/Documents/Pictures），请在「扫描目录」中手动填写"@,
            )
        } else {
            Some("指定的扫描目录均不存在，请检查路径"@)
        },
        ScanKind::AppData => None,
        _ => if asked == 0 {
            Some("至少需要一个扫描目录"@)
        } else {
            None
        },
    }
}

/// Whether a search starts; otherwise the reply.
pub fn scan_gate(k: ScanKind, asked: usize, found: usize) -> (out: Result<(), Json>)
    ensures
        match out {
            Ok(_) => start_refusal(k, asked as nat, found as nat) is None,
            Err(r) => start_refusal(k, asked as nat, found as nat) matches Some(m) && r.view()
                == refused(m),
        },
{
    match k {
        ScanKind::Duplicates => if found > 0 {
            Ok(())
        } else if asked == 0 {
            Err(
                refuse(
                    "默认扫描目录均不存在（Downloads/Desktop/Documents/Pictures），请在「扫描目录」中手动填写",
                ),
            )
        } else {
            Err(refuse("指定的扫描目录均不存在，请检查路径"))
        },
        ScanKind::AppData => Ok(()),
        _ => if asked == 0 {
            Err(refuse("至少需要一个扫描目录"))
        } else {
            Ok(())
        },
    }
}

/// The item that a line reports, if any.
pub open spec fn line_item(line: Seq<char>) -> Option<JsonV> {
    match behind(line, "@@ITEM@@"@) {
        Some(rest) => json_in(trimmed(rest)),
        None => None,
    }
}

/// The item that a line reports, if any.
pub fn read_item(line: &str) -> (out: Option<Json>)
    ensures
        match out {
            Some(v) => line_item(line@) == Some(v.view()),
            None => line_item(line@) is None,
        },
{
    match strip_front(line, "@@ITEM@@") {
        Some(rest) => read_json(trim(rest.as_str()).as_str()),
        None => None,
    }
}

// ------------------------------------------------------------------ what was found

/// Whether a path says where it is from a root on.
pub open spec fn from_root(s: Seq<char>) -> bool {
    s.len() > 0 && (s[0] == '\\' || s[0] == '/') || drive_first(s)
}

/// What two texts for the same path have in common.
pub open spec fn key_of(p: Seq<char>, cwd: Option<Seq<char>>) -> Seq<char> {
    let s = bare(p);
    lowercase(
        folded_path(
            if from_root(s) {
                s
            } else {
                match cwd {
                    Some(c) => c + "\\"@ + s,
                    None => s,
                }
            },
        ),
    )
}

/// What two texts for the same path have in common.
pub fn path_key(p: &str, cwd: Option<&str>) -> (out: String)
    ensures
        out@ == key_of(
            p@,
            match cwd {
                Some(c) => Some(c@),
                None => None,
            },
        ),
{
    let s: String = strip_prefix(p);
    let v: Vec<char> = chars_of(s.as_str());
    let rooted: bool = (v.len() > 0 && (v[0] == '\\' || v[0] == '/')) || (v.len() >= 2 && (('a'
        <= v[0] && v[0] <= 'z') || ('A' <= v[0] && v[0] <= 'Z')) && v[1] == ':');
    assert(rooted == from_root(s@));
    let s: String = if rooted {
        s
    } else {
        match cwd {
            Some(c) => cat3(c, "\\", s.as_str()),
            None => s,
        }
    };
    fold_path(s.as_str()).to_lowercase()
}

/// Something that was found: the key of its path, the path, whether it is a directory,
/// whether it was empty, and when it was found.
#[derive(Debug)]
pub struct SnapEntry {
    pub key: String,
    pub path: String,
    pub dir: bool,
    pub empty: bool,
    pub ts: u64,
}

/// The mathematical value of something that was found.
pub struct SnapV {
    pub key: Seq<char>,
    pub path: Seq<char>,
    pub dir: bool,
    pub empty: bool,
    pub ts: u64,
}

impl SnapEntry {
    pub open spec fn view(self) -> SnapV {
        SnapV {
            key: self.key@,
            path: self.path@,
            dir: self.dir,
            empty: self.empty,
            ts: self.ts,
        }
    }
}

/// The values of what was found.
pub open spec fn snaps(v: Seq<SnapEntry>) -> Seq<SnapV> {
    Seq::new(v.len(), |i: int| v[i].view())
}

/// The position of the first entry with a key, at or after `i`.
pub open spec fn snap_at(list: Seq<SnapV>, key: Seq<char>, i: int) -> int
    decreases list.len() - i,
{
    if i < 0 || i >= list.len() || list[i].key == key {
        i
    } else {
        snap_at(list, key, i + 1)
    }
}

/// What was found with one more: in the place of the one with the same key, else at the
/// end.
pub open spec fn with_snap(list: Seq<SnapV>, e: SnapV) -> Seq<SnapV> {
    let i = snap_at(list, e.key, 0);
    if i < list.len() {
        list.update(i, e)
    } else {
        list.push(e)
    }
}

/// An item that was found. Empty directories and directories of applications are
/// directories, all others are files.
pub open spec fn snap_of(it: JsonV, path: Seq<char>, ts: u64, cwd: Option<Seq<char>>) -> SnapV {
    let t = text_member(it, "type"@);
    SnapV {
        key: key_of(path, cwd),
        path,
        dir: t == Some("emptyfolder"@) || t == Some("appdata"@),
        empty: t == Some("emptyfolder"@),
        ts,
    }
}

/// What was found with the first `n` items of a search. An item without a path does not
/// count.
pub open spec fn with_items(
    list: Seq<SnapV>,
    items: Seq<JsonV>,
    ts: u64,
    cwd: Option<Seq<char>>,
    n: int,
) -> Seq<SnapV>
    decreases n,
{
    if n <= 0 {
        list
    } else {
        let before = with_items(list, items, ts, cwd, n - 1);
        match text_member(items[n - 1], "path"@) {
            Some(p) => with_snap(before, snap_of(items[n - 1], p, ts, cwd)),
            None => before,
        }
    }
}

/// How much is kept at most.
pub const FINDER_SNAPSHOT_SLOT_MAX: usize = 500_000;

/// The keys that put old entries first.
pub open spec fn age_keys(list: Seq<SnapV>) -> Seq<u64> {
    Seq::new(list.len(), |i: int| (u64::MAX - list[i].ts) as u64)
}

/// Whether an entry is in the older half: of entries as old as each other, those that
/// came first count as older.
pub open spec fn in_older_half(list: Seq<SnapV>, i: int) -> bool {
    let n = list.len() as int;
    exists|k: int| 0 <= k < n / 2 && #[trigger] ranked(age_keys(list), n)[k] == i
}

/// What remains of the first `n` entries without the older half of all.
pub open spec fn younger(list: Seq<SnapV>, n: int) -> Seq<SnapV>
    decreases n,
{
    if n <= 0 {
        Seq::empty()
    } else if in_older_half(list, n - 1) {
        younger(list, n - 1)
    } else {
        younger(list, n - 1).push(list[n - 1])
    }
}

/// What is kept after a search. Beyond the limit the older half is dropped.
pub open spec fn stored(
    list: Seq<SnapV>,
    items: Seq<JsonV>,
    ts: u64,
    cwd: Option<Seq<char>>,
) -> Seq<SnapV> {
    let all = with_items(list, items, ts, cwd, items.len() as int);
    if all.len() > FINDER_SNAPSHOT_SLOT_MAX {
        younger(all, all.len() as int)
    } else {
        all
    }
}

/// What the searches of a window have found, each path once.
pub struct Slot {
    entries: Vec<SnapEntry>,
    index: StringHashMap<usize>,
}

impl Slot {
    /// What was found.
    pub closed spec fn view(self) -> Seq<SnapV> {
        snaps(self.entries@)
    }

    /// Whether the index leads to the entries.
    pub closed spec fn wf(self) -> bool {
        indexed(snaps(self.entries@), self.index@)
    }

    /// A window that has found nothing yet.
    pub fn new() -> (out: Self)
        ensures
            out.wf(),
            out.view() == Seq::<SnapV>::empty(),
    {
        let out: Slot = Slot { entries: Vec::new(), index: StringHashMap::new() };
        assert(snaps(out.entries@) =~= Seq::empty());
        out
    }

    fn put(&mut self, e: SnapEntry)
        requires
            old(self).wf(),
        ensures
            final(self).wf(),
            final(self).view() == with_snap(old(self).view(), e.view()),
    {
        let ghost list = snaps(self.entries@);
        let ghost index = self.index@;
        match self.index.get(e.key.as_str()) {
            Some(i) => {
                let i: usize = *i;
                proof {
                    lemma_snap_at(list, e.key@, 0, i as int);
                }
                self.entries.set(i, e);
                proof {
                    assert(snaps(self.entries@) =~= list.update(i as int, e.view()));
                    lemma_index_update(list, index, i as int, e.view());
                }
            },
            None => {
                proof {
                    lemma_no_snap(list, index, e.key@, 0);
                }
                let n: usize = self.entries.len();
                self.index.insert(e.key.clone(), n);
                self.entries.push(e);
                proof {
                    assert(snaps(self.entries@) =~= list.push(e.view()));
                    lemma_index_push(list, index, e.view(), n);
                }
            },
        }
    }

    fn drop_older(&mut self)
        requires
            old(self).wf(),
        ensures
            final(self).wf(),
            final(self).view() == younger(old(self).view(), old(self).view().len() as int),
    {
        let ghost list = snaps(self.entries@);
        let n: usize = self.entries.len();
        let mut keys: Vec<u64> = Vec::new();
        let mut gone: Vec<bool> = Vec::new();
        let mut i: usize = 0;
        while i < n
            invariant
                i <= n,
                n == self.entries@.len(),
                list == snaps(self.entries@),
                keys@.len() == i,
                gone@.len() == i,
                forall|k: int| 0 <= k < i ==> (#[trigger] keys@[k]) == age_keys(list)[k],
                forall|k: int| 0 <= k < i ==> !(#[trigger] gone@[k]),
            decreases n - i,
        {
            assert(list[i as int] == self.entries@[i as int].view());
            keys.push(u64::MAX - self.entries[i].ts);
            gone.push(false);
            i += 1;
        }
        assert(keys@ =~= age_keys(list));
        let r: Vec<usize> = order_desc(&keys);
        proof {
            law_ranked(keys@, n as int);
        }
        let mut k: usize = 0;
        while k < n / 2
            invariant
                k <= n / 2,
                n == list.len(),
                r@ == ranked(age_keys(list), n as int),
                r@.len() == n,
                forall|x: int| 0 <= x < n ==> (#[trigger] r@[x]) < n,
                gone@.len() == n,
                forall|x: int|
                    0 <= x < n ==> (#[trigger] gone@[x]) == gone_before(r@, x, k as int),
            decreases n / 2 - k,
        {
            let at: usize = r[k];
            let ghost before = gone@;
            gone.set(at, true);
            k += 1;
            proof {
                assert forall|x: int| 0 <= x < n implies (#[trigger] gone@[x]) == gone_before(
                    r@,
                    x,
                    k as int,
                ) by {
                    if gone_before(r@, x, k - 1) {
                        let j = choose|j: int| 0 <= j < k - 1 && #[trigger] r@[j] == x;
                        assert(r@[j] == x);
                    }
                    if x == at {
                        assert(r@[k - 1] == x);
                    } else {
                        assert(gone@[x] == before[x]);
                    }
                }
            }
        }
        let mut fresh: Slot = Slot::new();
        let mut j: usize = 0;
        while j < n
            invariant
                j <= n,
                n == self.entries@.len(),
                list == snaps(self.entries@),
                indexed(list, self.index@),
                gone@.len() == n,
                r@ == ranked(age_keys(list), n as int),
                forall|x: int|
                    0 <= x < n ==> (#[trigger] gone@[x]) == gone_before(r@, x, n as int / 2),
                fresh.wf(),
                fresh.view() == younger(list, j as int),
                forall|x: int|
                    0 <= x < fresh.view().len() ==> comes_from(
                        list,
                        j as int,
                        #[trigger] fresh.view()[x],
                    ),
            decreases n - j,
        {
            let e: &SnapEntry = &self.entries[j];
            assert(list[j as int] == e.view());
            assert(in_older_half(list, j as int) == gone_before(r@, j as int, n as int / 2));
            let ghost before = fresh.view();
            if !gone[j] {
                let c: SnapEntry = SnapEntry {
                    key: e.key.clone(),
                    path: e.path.clone(),
                    dir: e.dir,
                    empty: e.empty,
                    ts: e.ts,
                };
                proof {
                    assert(c.view() == e.view());
                    lemma_fresh(list, self.index@, before, j as int, 0);
                }
                fresh.put(c);
                assert(fresh.view() =~= before.push(e.view()));
            }
            proof {
                assert forall|x: int| 0 <= x < fresh.view().len() implies comes_from(
                    list,
                    j + 1,
                    #[trigger] fresh.view()[x],
                ) by {
                    if x < before.len() {
                        assert(comes_from(list, j as int, before[x]));
                        let y = choose|y: int|
                            0 <= y < j && (#[trigger] list[y]).key == before[x].key;
                        assert(list[y].key == fresh.view()[x].key);
                    } else {
                        assert(list[j as int].key == fresh.view()[x].key);
                    }
                }
            }
            j += 1;
        }
        let Slot { entries, index } = fresh;
        self.entries = entries;
        self.index = index;
    }

    /// Takes in what a search has found at a moment.
    pub fn store(&mut self, items: &Vec<Json>, ts: u64, cwd: Option<&str>)
        requires
            old(self).wf(),
        ensures
            final(self).wf(),
            final(self).view() == stored(
                old(self).view(),
                values(items@),
                ts,
                match cwd {
                    Some(c) => Some(c@),
                    None => None,
                },
            ),
    {
        let ghost start = self.view();
        let ghost iv = values(items@);
        let ghost w = match cwd {
            Some(c) => Some(c@),
            None => None,
        };
        let mut i: usize = 0;
        while i < items.len()
            invariant
                i <= items@.len(),
                iv == values(items@),
                w == (match cwd {
                    Some(c) => Some(c@),
                    None => None,
                }),
                self.wf(),
                self.view() == with_items(start, iv, ts, w, i as int),
            decreases items@.len() - i,
        {
            let it: &Json = &items[i];
            assert(iv[i as int] == it.view());
            if let Some(p) = it.text("path") {
                let empty: bool = match it.text("type") {
                    Some(t) => same(t, "emptyfolder"),
                    None => false,
                };
                let app: bool = match it.text("type") {
                    Some(t) => same(t, "appdata"),
                    None => false,
                };
                self.put(
                    SnapEntry {
                        key: path_key(p, cwd),
                        path: p.to_owned(),
                        dir: empty || app,
                        empty,
                        ts,
                    },
                );
            }
            i += 1;
        }
        assert(iv.len() == items@.len());
        assert(self.view().len() == self.entries@.len());
        if self.entries.len() > FINDER_SNAPSHOT_SLOT_MAX {
            self.drop_older();
        }
    }

    /// What was found under a key.
    pub fn get(&self, key: &str) -> (out: Option<&SnapEntry>)
        requires
            self.wf(),
        ensures
            match out {
                Some(e) => found_under(self.view(), key@) == Some(e.view()),
                None => found_under(self.view(), key@) is None,
            },
    {
        let ghost list = snaps(self.entries@);
        match self.index.get(key) {
            Some(i) => {
                proof {
                    lemma_snap_at(list, key@, 0, *i as int);
                    assert(list[*i as int] == self.entries@[*i as int].view());
                }
                Some(&self.entries[*i])
            },
            None => {
                proof {
                    lemma_no_snap(list, self.index@, key@, 0);
                }
                None
            },
        }
    }
}

/// What was found under a key.
pub open spec fn found_under(list: Seq<SnapV>, key: Seq<char>) -> Option<SnapV> {
    let i = snap_at(list, key, 0);
    if i < list.len() {
        Some(list[i])
    } else {
        None
    }
}

spec fn gone_before(r: Seq<usize>, x: int, k: int) -> bool {
    exists|j: int| 0 <= j < k && #[trigger] r[j] == x
}

spec fn comes_from(list: Seq<SnapV>, n: int, e: SnapV) -> bool {
    exists|y: int| 0 <= y < n && (#[trigger] list[y]).key == e.key
}

/// Whether an index leads from every key to its one entry.
spec fn indexed(list: Seq<SnapV>, index: Map<Seq<char>, usize>) -> bool {
    &&& forall|k: Seq<char>| #[trigger]
        index.contains_key(k) ==> index[k] < list.len() && list[index[k] as int].key == k
    &&& forall|i: int|
        0 <= i < list.len() ==> index.contains_key((#[trigger] list[i]).key)
            && index[list[i].key] == i
}

proof fn lemma_snap_at(list: Seq<SnapV>, key: Seq<char>, i: int, at: int)
    requires
        0 <= i <= at < list.len(),
        list[at].key == key,
        forall|a: int, b: int|
            0 <= a < b < list.len() ==> (#[trigger] list[a]).key != (#[trigger] list[b]).key,
    ensures
        snap_at(list, key, i) == at,
    decreases at - i,
{
    if i < at {
        assert(list[i].key != list[at].key);
        lemma_snap_at(list, key, i + 1, at);
    }
}

proof fn lemma_no_snap(list: Seq<SnapV>, index: Map<Seq<char>, usize>, key: Seq<char>, i: int)
    requires
        indexed(list, index),
        !index.contains_key(key),
        0 <= i <= list.len(),
    ensures
        snap_at(list, key, i) == list.len(),
    decreases list.len() - i,
{
    if i < list.len() {
        assert(index.contains_key(list[i].key));
        lemma_no_snap(list, index, key, i + 1);
    }
}

proof fn lemma_index_update(list: Seq<SnapV>, index: Map<Seq<char>, usize>, i: int, e: SnapV)
    requires
        indexed(list, index),
        0 <= i < list.len(),
        list[i].key == e.key,
    ensures
        indexed(list.update(i, e), index),
{
    let now = list.update(i, e);
    assert forall|k: int| 0 <= k < now.len() implies index.contains_key((#[trigger] now[k]).key)
        && index[now[k].key] == k by {
        assert(index.contains_key(list[k].key));
    }
}

proof fn lemma_index_push(list: Seq<SnapV>, index: Map<Seq<char>, usize>, e: SnapV, n: usize)
    requires
        indexed(list, index),
        n == list.len(),
        !index.contains_key(e.key),
    ensures
        indexed(list.push(e), index.insert(e.key, n)),
{
    let now = list.push(e);
    let map = index.insert(e.key, n);
    assert forall|k: Seq<char>| #[trigger] map.contains_key(k) implies map[k] < now.len()
        && now[map[k] as int].key == k by {
        if k != e.key {
            assert(index.contains_key(k));
        }
    }
    assert forall|k: int| 0 <= k < now.len() implies map.contains_key((#[trigger] now[k]).key)
        && map[now[k].key] == k by {
        if k < list.len() {
            assert(index.contains_key(list[k].key));
        }
    }
}

proof fn lemma_fresh(
    list: Seq<SnapV>,
    index: Map<Seq<char>, usize>,
    kept: Seq<SnapV>,
    j: int,
    i: int,
)
    requires
        indexed(list, index),
        0 <= j < list.len(),
        0 <= i <= kept.len(),
        forall|x: int| 0 <= x < kept.len() ==> comes_from(list, j, #[trigger] kept[x]),
    ensures
        snap_at(kept, list[j].key, i) == kept.len(),
    decreases kept.len() - i,
{
    if i < kept.len() {
        assert(comes_from(list, j, kept[i]));
        let y = choose|y: int| 0 <= y < j && (#[trigger] list[y]).key == kept[i].key;
        assert(index[list[y].key] == y && index[list[j].key] == j);
        lemma_fresh(list, index, kept, j, i + 1);
    }
}

// --------------------------------------------------------------- what is deleted

/// How much may be deleted at once.
pub const FINDER_DELETE_MAX: usize = 500;

/// The paths that are to be deleted, of the first `n` items: of those with a path, as
/// many as may be deleted at once.
pub open spec fn asked_paths(items: Seq<JsonV>, n: int) -> Seq<Seq<char>>
    decreases n,
{
    if n <= 0 {
        Seq::empty()
    } else {
        let before = asked_paths(items, n - 1);
        match text_member(items[n - 1], "path"@) {
            Some(p) => if before.len() < FINDER_DELETE_MAX {
                before.push(p)
            } else {
                before
            },
            None => before,
        }
    }
}

/// What was found under each of the first `n` paths, if all of them were found.
pub open spec fn all_found(
    paths: Seq<Seq<char>>,
    list: Seq<SnapV>,
    cwd: Option<Seq<char>>,
    n: int,
) -> Option<Seq<SnapV>>
    decreases n,
{
    if n <= 0 {
        Some(Seq::empty())
    } else {
        match (
            all_found(paths, list, cwd, n - 1),
            found_under(list, key_of(paths[n - 1], cwd)),
        ) {
            (Some(before), Some(e)) => Some(before.push(e)),
            _ => None,
        }
    }
}

/// What is to be deleted; otherwise why nothing is.
pub open spec fn targets_of(items: Seq<JsonV>, list: Seq<SnapV>, cwd: Option<Seq<char>>) -> Result<
    Seq<SnapV>,
    Seq<char>,
> {
    let paths = asked_paths(items, items.len() as int);
    match all_found(paths, list, cwd, paths.len() as int) {
        None => Err("删除目标已过期，请重新扫描后再试"@),
        Some(t) => if t.len() == 0 {
            Err("没有可删除的项"@)
        } else {
            Ok(t)
        },
    }
}

fn read_paths(items: &Vec<Json>) -> (out: Vec<String>)
    ensures
        texts(out@) == asked_paths(values(items@), items@.len() as int),
{
    let ghost iv = values(items@);
    let mut out: Vec<String> = Vec::new();
    let mut i: usize = 0;
    assert(texts(out@) =~= Seq::empty());
    while i < items.len()
        invariant
            i <= items@.len(),
            iv == values(items@),
            texts(out@) == asked_paths(iv, i as int),
        decreases items@.len() - i,
    {
        assert(iv[i as int] == items@[i as int].view());
        assert(texts(out@).len() == out@.len());
        if let Some(p) = items[i].text("path") {
            if out.len() < FINDER_DELETE_MAX {
                let p: String = p.to_owned();
                proof {
                    lemma_texts_push(out@, p);
                }
                out.push(p);
            }
        }
        i += 1;
    }
    out
}

fn copy_entry(e: &SnapEntry) -> (out: SnapEntry)
    ensures
        out.view() == e.view(),
{
    SnapEntry {
        key: e.key.clone(),
        path: e.path.clone(),
        dir: e.dir,
        empty: e.empty,
        ts: e.ts,
    }
}

/// What is to be deleted; otherwise the reply. Only what was found may be deleted.
pub fn delete_targets(items: &Vec<Json>, slot: &Slot, cwd: Option<&str>) -> (out: Result<
    Vec<SnapEntry>,
    Json,
>)
    requires
        slot.wf(),
    ensures
        match out {
            Ok(t) => targets_of(
                values(items@),
                slot.view(),
                match cwd {
                    Some(c) => Some(c@),
                    None => None,
                },
            ) == Ok::<Seq<SnapV>, Seq<char>>(snaps(t@)),
            Err(r) => targets_of(
                values(items@),
                slot.view(),
                match cwd {
                    Some(c) => Some(c@),
                    None => None,
                },
            ) matches Err(m) && r.view() == refused(m),
        },
{
    let ghost w = match cwd {
        Some(c) => Some(c@),
        None => None,
    };
    let paths: Vec<String> = read_paths(items);
    let ghost pv = texts(paths@);
    assert(values(items@).len() == items@.len());
    assert(pv.len() == paths@.len());
    let mut out: Vec<SnapEntry> = Vec::new();
    let mut i: usize = 0;
    assert(snaps(out@) =~= Seq::empty());
    while i < paths.len()
        invariant
            i <= paths@.len(),
            pv == texts(paths@),
            slot.wf(),
            w == (match cwd {
                Some(c) => Some(c@),
                None => None,
            }),
            pv == asked_paths(values(items@), values(items@).len() as int),
            all_found(pv, slot.view(), w, i as int) == Some(snaps(out@)),
        decreases paths@.len() - i,
    {
        assert(pv[i as int] == paths@[i as int]@);
        let key: String = path_key(paths[i].as_str(), cwd);
        match slot.get(key.as_str()) {
            Some(e) => {
                let c: SnapEntry = copy_entry(e);
                let ghost before = snaps(out@);
                out.push(c);
                assert(snaps(out@) =~= before.push(c.view()));
            },
            None => {
                proof {
                    lemma_none_found(pv, slot.view(), w, i + 1, pv.len() as int);
                }
                return Err(refuse("删除目标已过期，请重新扫描后再试"));
            },
        }
        i += 1;
    }
    assert(snaps(out@).len() == out@.len());
    if out.len() == 0 {
        Err(refuse("没有可删除的项"))
    } else {
        Ok(out)
    }
}

proof fn lemma_none_found(
    paths: Seq<Seq<char>>,
    list: Seq<SnapV>,
    cwd: Option<Seq<char>>,
    i: int,
    n: int,
)
    requires
        all_found(paths, list, cwd, i) is None,
        i <= n,
    ensures
        all_found(paths, list, cwd, n) is None,
    decreases n - i,
{
    if i < n {
        lemma_none_found(paths, list, cwd, i, n - 1);
    }
}

/// Whether the path of an entry must not be deleted.
pub open spec fn guarded(e: SnapV, long: Option<String>, r: Roots) -> bool {
    protected_norm(normal_path(long_path(e.path, long)), r)
}

/// The position of the first entry at or after `i` that must not be deleted.
pub open spec fn guarded_at(list: Seq<SnapV>, longs: Seq<Option<String>>, r: Roots, i: int) -> int
    decreases list.len() - i,
{
    if i < 0 || i >= list.len() || guarded(list[i], longs[i], r) {
        i
    } else {
        guarded_at(list, longs, r, i + 1)
    }
}

/// The reply to a request that holds a path that must not be deleted.
pub open spec fn guarded_refusal(path: Seq<char>) -> JsonV {
    refused("包含受保护的系统路径，已拒绝："@ + path)
}

/// Whether all of a request may be deleted, given the long forms of its paths where the
/// system knows them; otherwise the reply.
pub fn delete_gate(
    targets: &Vec<SnapEntry>,
    longs: &Vec<Option<String>>,
    r: &ProtectRoots,
) -> (out: Result<(), Json>)
    requires
        longs.len() == targets.len(),
    ensures
        match out {
            Ok(_) => guarded_at(snaps(targets@), longs@, r.view(), 0) == targets@.len(),
            Err(e) => {
                let i = guarded_at(snaps(targets@), longs@, r.view(), 0);
                i < targets@.len() && e.view() == guarded_refusal(targets@[i].path@)
            },
        },
{
    let ghost list = snaps(targets@);
    assert(list.len() == targets@.len());
    let mut i: usize = 0;
    while i < targets.len()
        invariant
            i <= targets@.len(),
            list == snaps(targets@),
            list.len() == targets@.len(),
            longs.len() == targets.len(),
            guarded_at(list, longs@, r.view(), 0) == guarded_at(list, longs@, r.view(), i as int),
        decreases targets@.len() - i,
    {
        assert(list[i as int] == targets@[i as int].view());
        let path: &str = targets[i].path.as_str();
        if is_protected_norm(
            lexically_normalize(to_long_path(path, &longs[i]).as_str()).as_str(),
            r,
        ) {
            return Err(refuse(cat("包含受保护的系统路径，已拒绝：", path).as_str()));
        }
        i += 1;
    }
    Ok(())
}

/// What stands at a path: nothing that can be seen, a directory with so many entries, a
/// file, or something else.
#[derive(Debug, Clone, Copy, PartialEq, Eq, Structural)]
pub enum Standing {
    Unseen,
    Dir(u64),
    File,
    Other,
}

/// Whether an entry is still what it was found to be. A directory that was empty must
/// still be empty.
pub open spec fn unchanged(e: SnapV, s: Standing) -> bool {
    match s {
        Standing::Unseen => false,
        Standing::Dir(n) => e.dir && (e.empty ==> n == 0),
        Standing::File => !e.dir,
        Standing::Other => false,
    }
}

/// Whether an entry is still what it was found to be. Nothing may be deleted before this
/// was asked.
pub fn may_remove(e: &SnapEntry, s: Standing) -> (out: bool)
    ensures
        out == unchanged(e.view(), s),
{
    match s {
        Standing::Unseen => false,
        Standing::Dir(n) => e.dir && (!e.empty || n == 0),
        Standing::File => !e.dir,
        Standing::Other => false,
    }
}

/// The reply where nothing of a request was left to delete.
pub open spec fn nothing_left(total: nat) -> JsonV {
    granted(
        JsonV::Obj(
            seq![
                ("totalFreed"@, JsonV::Num(dec(0))),
                ("success"@, JsonV::Num(dec(0))),
                ("failed"@, JsonV::Num(dec(0))),
                ("skipped"@, JsonV::Num(dec(total))),
                ("recycled"@, JsonV::Num(dec(0))),
                ("details"@, JsonV::Arr(Seq::empty())),
                ("manifestPath"@, JsonV::Null),
            ],
        ),
    )
}

/// The reply where nothing of a request was left to delete.
pub fn reply_nothing_left(total: usize) -> (out: Json)
    ensures
        out.view() == nothing_left(total as nat),
{
    let none: Vec<Json> = Vec::new();
    assert(values(none@) =~= Seq::empty());
    let f: Fields = Fields::new().with("totalFreed", jcount(0)).with("success", jcount(0)).with(
        "failed",
        jcount(0),
    ).with("skipped", jcount(total as u64)).with("recycled", jcount(0)).with(
        "details",
        jarray(none),
    ).with("manifestPath", Json::Null);
    assert(f.view() =~= seq![
        ("totalFreed"@, JsonV::Num(dec(0))),
        ("success"@, JsonV::Num(dec(0))),
        ("failed"@, JsonV::Num(dec(0))),
        ("skipped"@, JsonV::Num(dec(total as nat))),
        ("recycled"@, JsonV::Num(dec(0))),
        ("details"@, JsonV::Arr(Seq::empty())),
        ("manifestPath"@, JsonV::Null),
    ]);
    grant(f.object())
}

/// The results of deletions among the first `n` items.
pub open spec fn results_in(items: Seq<JsonV>, n: int) -> Seq<JsonV>
    decreases n,
{
    if n <= 0 {
        Seq::empty()
    } else if text_member(items[n - 1], "type"@) == Some("delresult"@) {
        results_in(items, n - 1).push(items[n - 1])
    } else {
        results_in(items, n - 1)
    }
}

/// Whether something was deleted.
pub open spec fn went_well(d: JsonV) -> bool {
    text_member(d, "status"@) == Some("ok"@)
}

/// Whether something went to the recycle bin.
pub open spec fn went_to_bin(d: JsonV) -> bool {
    text_member(d, "mode"@) == Some("recycled"@)
}

/// What came of the deletions: the bytes freed, how many went well, how many of these
/// to the recycle bin, and how many failed.
pub struct Totals {
    pub freed: nat,
    pub success: nat,
    pub recycled: nat,
    pub failed: nat,
}

/// What came of the first `n` deletions.
pub open spec fn totals(list: Seq<JsonV>, n: int) -> Totals
    decreases n,
{
    if n <= 0 {
        Totals { freed: 0, success: 0, recycled: 0, failed: 0 }
    } else {
        let t = totals(list, n - 1);
        let d = list[n - 1];
        Totals {
            freed: cap64((t.freed + size_of_value(member(d, "freed"@))) as nat),
            success: if went_well(d) {
                t.success + 1
            } else {
                t.success
            },
            recycled: if went_well(d) && went_to_bin(d) {
                t.recycled + 1
            } else {
                t.recycled
            },
            failed: if went_well(d) {
                t.failed
            } else {
                t.failed + 1
            },
        }
    }
}

/// What is written down of something that was deleted.
pub open spec fn deleted_entry(d: JsonV) -> JsonV {
    JsonV::Obj(
        seq![
            (
                "path"@,
                JsonV::Str(
                    match text_member(d, "path"@) {
                        Some(p) => replaced(p, '/', '\\'),
                        None => Seq::empty(),
                    },
                ),
            ),
            (
                "kind"@,
                JsonV::Str(
                    if text_member(d, "kind"@) == Some("dir"@) {
                        "dir"@
                    } else {
                        "file"@
                    },
                ),
            ),
            ("size"@, JsonV::Num(dec(size_of_value(member(d, "freed"@)) as nat))),
            ("recycled"@, JsonV::Bool(went_to_bin(d))),
        ],
    )
}

/// What is written down of the first `n` deletions.
pub open spec fn deleted_entries(list: Seq<JsonV>, n: int) -> Seq<JsonV>
    decreases n,
{
    if n <= 0 {
        Seq::empty()
    } else if went_well(list[n - 1]) {
        deleted_entries(list, n - 1).push(deleted_entry(list[n - 1]))
    } else {
        deleted_entries(list, n - 1)
    }
}

/// The reply to a request: what became of each result. What has no result was skipped.
pub open spec fn delete_reply(list: Seq<JsonV>, total: nat, manifest: Seq<char>) -> JsonV {
    let t = totals(list, list.len() as int);
    granted(
        JsonV::Obj(
            seq![
                ("totalFreed"@, JsonV::Num(dec(t.freed))),
                ("success"@, JsonV::Num(dec(t.success))),
                ("failed"@, JsonV::Num(dec(t.failed))),
                (
                    "skipped"@,
                    JsonV::Num(
                        dec(
                            if total > t.success + t.failed {
                                (total - (t.success + t.failed)) as nat
                            } else {
                                0
                            },
                        ),
                    ),
                ),
                ("recycled"@, JsonV::Num(dec(t.recycled))),
                ("details"@, JsonV::Arr(list)),
                ("manifestPath"@, JsonV::Str(manifest)),
            ],
        ),
    )
}

fn is_text(v: &Json, key: &str, what: &str) -> (out: bool)
    ensures
        out == (text_member(v.view(), key@) == Some(what@)),
{
    match v.text(key) {
        Some(t) => same(t, what),
        None => false,
    }
}

/// The results of deletions among the items that were reported.
pub fn delete_results(items: &Vec<Json>) -> (out: Vec<Json>)
    ensures
        values(out@) == results_in(values(items@), items@.len() as int),
{
    let ghost iv = values(items@);
    let mut out: Vec<Json> = Vec::new();
    let mut i: usize = 0;
    assert(values(out@) =~= Seq::empty());
    while i < items.len()
        invariant
            i <= items@.len(),
            iv == values(items@),
            values(out@) == results_in(iv, i as int),
        decreases items@.len() - i,
    {
        assert(iv[i as int] == items@[i as int].view());
        if is_text(&items[i], "type", "delresult") {
            let c: Json = copy_json(&items[i]);
            proof {
                lemma_values_push(out@, c);
            }
            out.push(c);
        }
        i += 1;
    }
    out
}

fn make_entry(d: &Json) -> (out: Json)
    ensures
        out.view() == deleted_entry(d.view()),
{
    let path: String = match d.text("path") {
        Some(p) => replace_char(p, '/', '\\'),
        None => {
            let none: String = String::new();
            assert(none@ =~= Seq::empty());
            none
        },
    };
    let kind: &str = if is_text(d, "kind", "dir") {
        "dir"
    } else {
        "file"
    };
    let f: Fields = Fields::new().with("path", jtext(path.as_str())).with(
        "kind",
        jtext(kind),
    ).with("size", jcount(size_in(d.get("freed")))).with(
        "recycled",
        Json::Bool(is_text(d, "mode", "recycled")),
    );
    assert(f.view() =~= deleted_entry(d.view())->Obj_0);
    f.object()
}

/// What is written down of the deletions.
pub fn manifest_entries(list: &Vec<Json>) -> (out: Vec<Json>)
    ensures
        values(out@) == deleted_entries(values(list@), list@.len() as int),
{
    let ghost lv = values(list@);
    let mut out: Vec<Json> = Vec::new();
    let mut i: usize = 0;
    assert(values(out@) =~= Seq::empty());
    while i < list.len()
        invariant
            i <= list@.len(),
            lv == values(list@),
            values(out@) == deleted_entries(lv, i as int),
        decreases list@.len() - i,
    {
        assert(lv[i as int] == list@[i as int].view());
        if is_text(&list[i], "status", "ok") {
            let e: Json = make_entry(&list[i]);
            proof {
                lemma_values_push(out@, e);
            }
            out.push(e);
        }
        i += 1;
    }
    out
}

/// The reply to a request of `total` entries, given its results and where they were
/// written down.
pub fn reply_deleted(list: Vec<Json>, total: usize, manifest: &str) -> (out: Json)
    ensures
        out.view() == delete_reply(values(list@), total as nat, manifest@),
{
    let ghost lv = values(list@);
    let mut freed: u64 = 0;
    let mut success: usize = 0;
    let mut recycled: usize = 0;
    let mut failed: usize = 0;
    let mut i: usize = 0;
    while i < list.len()
        invariant
            i <= list.len(),
            lv == values(list@),
            success + failed == i,
            recycled <= success,
            totals(lv, i as int) == (Totals {
                freed: freed as nat,
                success: success as nat,
                recycled: recycled as nat,
                failed: failed as nat,
            }),
        decreases list@.len() - i,
    {
        let d: &Json = &list[i];
        assert(lv[i as int] == d.view());
        let more: u64 = size_in(d.get("freed"));
        freed = if more > u64::MAX - freed {
            u64::MAX
        } else {
            freed + more
        };
        if is_text(d, "status", "ok") {
            success += 1;
            if is_text(d, "mode", "recycled") {
                recycled += 1;
            }
        } else {
            failed += 1;
        }
        i += 1;
    }
    assert(lv.len() == list@.len());
    let skipped: usize = if total > success + failed {
        total - (success + failed)
    } else {
        0
    };
    let ghost t = totals(lv, lv.len() as int);
    let f: Fields = Fields::new().with("totalFreed", jcount(freed)).with(
        "success",
        jcount(success as u64),
    ).with("failed", jcount(failed as u64)).with("skipped", jcount(skipped as u64)).with(
        "recycled",
        jcount(recycled as u64),
    ).with("details", jarray(list)).with("manifestPath", jtext(manifest));
    assert(f.view() =~= seq![
        ("totalFreed"@, JsonV::Num(dec(t.freed))),
        ("success"@, JsonV::Num(dec(t.success))),
        ("failed"@, JsonV::Num(dec(t.failed))),
        ("skipped"@, JsonV::Num(dec(skipped as nat))),
        ("recycled"@, JsonV::Num(dec(t.recycled))),
        ("details"@, JsonV::Arr(lv)),
        ("manifestPath"@, JsonV::Str(manifest@)),
    ]);
    grant(f.object())
}

// -------------------------------------------------------------------------- laws

/// One path that was not found by a search makes a request fail as a whole.
pub proof fn law_unknown_path_refuses_all(
    items: Seq<JsonV>,
    list: Seq<SnapV>,
    cwd: Option<Seq<char>>,
    i: int,
)
    requires
        0 <= i < asked_paths(items, items.len() as int).len(),
        found_under(list, key_of(asked_paths(items, items.len() as int)[i], cwd)) is None,
    ensures
        targets_of(items, list, cwd) is Err,
{
    let paths = asked_paths(items, items.len() as int);
    assert(all_found(paths, list, cwd, i + 1) is None);
    lemma_none_found(paths, list, cwd, i + 1, paths.len() as int);
}

/// Only what a search has found is deleted, under the path that the search gave, and no
/// more than may be deleted at once.
pub proof fn law_only_found_is_deleted(
    items: Seq<JsonV>,
    list: Seq<SnapV>,
    cwd: Option<Seq<char>>,
    i: int,
)
    requires
        targets_of(items, list, cwd) is Ok,
        0 <= i < targets_of(items, list, cwd)->Ok_0.len(),
    ensures
        list.contains(targets_of(items, list, cwd)->Ok_0[i]),
        targets_of(items, list, cwd)->Ok_0.len() <= FINDER_DELETE_MAX,
{
    let paths = asked_paths(items, items.len() as int);
    lemma_asked(items, items.len() as int);
    lemma_found(paths, list, cwd, paths.len() as int, i);
}

proof fn lemma_asked(items: Seq<JsonV>, n: int)
    ensures
        asked_paths(items, n).len() <= FINDER_DELETE_MAX,
    decreases n,
{
    if n > 0 {
        lemma_asked(items, n - 1);
    }
}

proof fn lemma_at(list: Seq<SnapV>, key: Seq<char>, i: int)
    requires
        0 <= i <= list.len(),
    ensures
        i <= snap_at(list, key, i) <= list.len(),
        snap_at(list, key, i) < list.len() ==> list[snap_at(list, key, i)].key == key,
    decreases list.len() - i,
{
    if i < list.len() && list[i].key != key {
        lemma_at(list, key, i + 1);
    }
}

proof fn lemma_found(
    paths: Seq<Seq<char>>,
    list: Seq<SnapV>,
    cwd: Option<Seq<char>>,
    n: int,
    i: int,
)
    requires
        0 <= n,
        all_found(paths, list, cwd, n) is Some,
        0 <= i < all_found(paths, list, cwd, n)->0.len(),
    ensures
        all_found(paths, list, cwd, n)->0.len() == n,
        list.contains(all_found(paths, list, cwd, n)->0[i]),
    decreases n,
{
    if n > 0 {
        let key = key_of(paths[n - 1], cwd);
        lemma_at(list, key, 0);
        let before = all_found(paths, list, cwd, n - 1)->0;
        lemma_found_len(paths, list, cwd, n - 1);
        if i < n - 1 {
            lemma_found(paths, list, cwd, n - 1, i);
        } else {
            assert(all_found(paths, list, cwd, n)->0[i] == list[snap_at(list, key, 0)]);
        }
    }
}

proof fn lemma_found_len(paths: Seq<Seq<char>>, list: Seq<SnapV>, cwd: Option<Seq<char>>, n: int)
    requires
        0 <= n,
        all_found(paths, list, cwd, n) is Some,
    ensures
        all_found(paths, list, cwd, n)->0.len() == n,
    decreases n,
{
    if n > 0 {
        lemma_found_len(paths, list, cwd, n - 1);
    }
}

/// A path that was just taken in is found under its key.
pub proof fn law_taken_in_is_found(list: Seq<SnapV>, e: SnapV)
    ensures
        found_under(with_snap(list, e), e.key) == Some(e),
{
    let i = snap_at(list, e.key, 0);
    lemma_at(list, e.key, 0);
    lemma_before(list, e.key, 0, i);
    lemma_with_snap(list, e, 0);
}

proof fn lemma_before(list: Seq<SnapV>, key: Seq<char>, a: int, i: int)
    requires
        0 <= a <= i <= list.len(),
        i == snap_at(list, key, a),
    ensures
        forall|k: int| a <= k < i ==> (#[trigger] list[k]).key != key,
    decreases list.len() - a,
{
    if a < list.len() && list[a].key != key {
        lemma_at(list, key, a + 1);
        lemma_before(list, key, a + 1, i);
    }
}

proof fn lemma_with_snap(list: Seq<SnapV>, e: SnapV, a: int)
    requires
        0 <= a <= snap_at(list, e.key, 0) <= list.len(),
        forall|k: int| 0 <= k < snap_at(list, e.key, 0) ==> (#[trigger] list[k]).key != e.key,
    ensures
        snap_at(with_snap(list, e), e.key, a) == snap_at(list, e.key, 0),
    decreases snap_at(list, e.key, 0) - a,
{
    let i = snap_at(list, e.key, 0);
    let now = with_snap(list, e);
    if a < i {
        assert(now[a] == list[a]);
        lemma_with_snap(list, e, a + 1);
    } else {
        assert(now[i] == e);
    }
}

/// What is kept after a search is no more than the limit, if what was kept before was
/// and the search has not found more than as much again.
pub proof fn law_slot_limit(list: Seq<SnapV>, items: Seq<JsonV>, ts: u64, cwd: Option<Seq<char>>)
    requires
        list.len() <= FINDER_SNAPSHOT_SLOT_MAX,
        items.len() < FINDER_SNAPSHOT_SLOT_MAX,
    ensures
        stored(list, items, ts, cwd).len() <= FINDER_SNAPSHOT_SLOT_MAX,
{
    let n = items.len() as int;
    let all = with_items(list, items, ts, cwd, n);
    lemma_grown(list, items, ts, cwd, n);
    if all.len() > FINDER_SNAPSHOT_SLOT_MAX {
        lemma_younger_len(all);
    }
}

proof fn lemma_grown(
    list: Seq<SnapV>,
    items: Seq<JsonV>,
    ts: u64,
    cwd: Option<Seq<char>>,
    n: int,
)
    requires
        0 <= n,
    ensures
        with_items(list, items, ts, cwd, n).len() <= list.len() + n,
    decreases n,
{
    if n > 0 {
        lemma_grown(list, items, ts, cwd, n - 1);
        let before = with_items(list, items, ts, cwd, n - 1);
        if let Some(p) = text_member(items[n - 1], "path"@) {
            lemma_at(before, snap_of(items[n - 1], p, ts, cwd).key, 0);
        }
    }
}

/// How many of the first `n` entries are in the older half.
spec fn older_count(list: Seq<SnapV>, n: int) -> int
    decreases n,
{
    if n <= 0 {
        0
    } else {
        older_count(list, n - 1) + if in_older_half(list, n - 1) {
            1int
        } else {
            0
        }
    }
}

proof fn lemma_younger_count(list: Seq<SnapV>, n: int)
    requires
        0 <= n,
    ensures
        younger(list, n).len() == n - older_count(list, n),
    decreases n,
{
    if n > 0 {
        lemma_younger_count(list, n - 1);
    }
}

/// Half of the entries are in the older half.
proof fn lemma_younger_len(list: Seq<SnapV>)
    requires
        list.len() <= u32::MAX,
    ensures
        younger(list, list.len() as int).len() == list.len() - list.len() / 2,
{
    let n = list.len() as int;
    let r = ranked(age_keys(list), n);
    law_ranked(age_keys(list), n);
    lemma_younger_count(list, n);
    lemma_count_set(list, n);
    let first = r.take(n / 2).map_values(|x: usize| x as int);
    assert(first.no_duplicates()) by {
        assert forall|a: int, b: int|
            0 <= a < first.len() && 0 <= b < first.len() && a != b implies first[a]
            != first[b] by {
            assert(r[a] != r[b]);
        }
    }
    first.unique_seq_to_set();
    assert(first.to_set() =~= older_below(list, n)) by {
        assert forall|i: int| first.to_set().contains(i) == #[trigger] older_below(
            list,
            n,
        ).contains(i) by {
            if first.to_set().contains(i) {
                let k = choose|k: int| 0 <= k < first.len() && first[k] == i;
                assert(r[k] == i);
            }
            if older_below(list, n).contains(i) {
                let k = choose|k: int| 0 <= k < n / 2 && #[trigger] r[k] == i;
                assert(first[k] == i);
                assert(first.contains(i));
            }
        }
    }
}

spec fn older_below(list: Seq<SnapV>, n: int) -> Set<int> {
    Set::new(|i: int| 0 <= i < n && in_older_half(list, i))
}

proof fn lemma_count_set(list: Seq<SnapV>, n: int)
    requires
        0 <= n,
    ensures
        older_below(list, n).finite(),
        older_below(list, n).len() == older_count(list, n),
    decreases n,
{
    if n > 0 {
        lemma_count_set(list, n - 1);
        let before = older_below(list, n - 1);
        if in_older_half(list, n - 1) {
            assert(older_below(list, n) =~= before.insert(n - 1));
        } else {
            assert(older_below(list, n) =~= before);
        }
    } else {
        assert(older_below(list, n) =~= Set::empty());
    }
}

} // verus!
