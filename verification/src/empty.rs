//! Empty files and empty directories, and the outermost of the latter.

use crate::events::{
    events, item_event, item_with, lemma_events_push, plain_item, progress, Event, EventV,
};
use crate::protect::{bare, strip_prefix};
use crate::scan::{limit_message, limit_text, unreadable, unreadable_text, MAX_SCAN_ENTRIES};
use crate::text::{chars_of, dec, decimal, lowercase, same, string_of, texts};
use crate::world::{Entry, Kind};
use vstd::hash_map::StringHashMap;
use vstd::hash_set::StringHashSet;
use vstd::prelude::*;

verus! {

// ---------------------------------------------------------------------- the limit

/// What one scan has kept: the empty files and directories of all its roots.
#[derive(Debug)]
pub struct EmptyAccum {
    pub files: Vec<String>,
    pub dirs: Vec<String>,
    pub kept: usize,
    pub truncated: bool,
    pub cap: usize,
}

/// The mathematical value of what was kept.
pub ghost struct Kept {
    pub files: Seq<Seq<char>>,
    pub dirs: Seq<Seq<char>>,
    pub kept: nat,
    pub truncated: bool,
    pub cap: nat,
}

/// Whether one more entry may be kept.
pub open spec fn has_room(k: Kept) -> bool {
    !k.truncated && k.kept < k.cap
}

/// What was kept after asking for room.
pub open spec fn asked(k: Kept) -> Kept {
    if has_room(k) {
        Kept { kept: k.kept + 1, ..k }
    } else {
        Kept { truncated: true, ..k }
    }
}

/// What asking for room reports: one warning, the first time that there is none.
pub open spec fn asked_events(k: Kept) -> Seq<EventV> {
    if !k.truncated && k.kept >= k.cap {
        seq![EventV::Warn(limit_text(k.cap))]
    } else {
        Seq::empty()
    }
}

impl EmptyAccum {
    pub open spec fn view(self) -> Kept {
        Kept {
            files: texts(self.files@),
            dirs: texts(self.dirs@),
            kept: self.kept as nat,
            truncated: self.truncated,
            cap: self.cap as nat,
        }
    }

    /// Nothing kept, with the limit of a scan.
    pub fn new() -> (out: Self)
        ensures
            out.view() == (Kept {
                files: Seq::empty(),
                dirs: Seq::empty(),
                kept: 0,
                truncated: false,
                cap: MAX_SCAN_ENTRIES as nat,
            }),
    {
        Self::with_cap(MAX_SCAN_ENTRIES)
    }

    /// Nothing kept, with the given limit.
    pub fn with_cap(cap: usize) -> (out: Self)
        ensures
            out.view() == (Kept {
                files: Seq::empty(),
                dirs: Seq::empty(),
                kept: 0,
                truncated: false,
                cap: cap as nat,
            }),
    {
        let out = EmptyAccum {
            files: Vec::new(),
            dirs: Vec::new(),
            kept: 0,
            truncated: false,
            cap,
        };
        assert(out.view().files =~= Seq::empty());
        assert(out.view().dirs =~= Seq::empty());
        out
    }

    /// Whether one more entry may be kept; the first refusal warns.
    pub fn room(&mut self, out: &mut Vec<Event>) -> (ok: bool)
        ensures
            ok == has_room(old(self).view()),
            final(self).view() == asked(old(self).view()),
            events(final(out)@) == events(old(out)@) + asked_events(old(self).view()),
    {
        assert(events(out@) + Seq::<EventV>::empty() =~= events(out@));
        if self.truncated {
            return false;
        }
        if self.kept >= self.cap {
            self.truncated = true;
            let m: String = limit_message(self.cap);
            proof {
                lemma_events_push(out@, Event::Warn(m));
            }
            out.push(Event::Warn(m));
            return false;
        }
        self.kept += 1;
        true
    }

    /// Whether the limit was reached.
    pub fn stopped(&self) -> (out: bool)
        ensures
            out == self.view().truncated,
    {
        self.truncated
    }
}

// --------------------------------------------------------------------- collecting

/// Where a collection stands: what was kept and what was reported.
pub ghost struct Walk {
    pub kept: Kept,
    pub ev: Seq<EventV>,
}

/// An empty file kept where there is room.
pub open spec fn with_file(w: Walk, path: Seq<char>) -> Walk {
    let k = asked(w.kept);
    Walk {
        kept: if has_room(w.kept) {
            Kept { files: k.files.push(path), ..k }
        } else {
            k
        },
        ev: w.ev + asked_events(w.kept),
    }
}

/// An empty directory kept where there is room.
pub open spec fn with_dir(w: Walk, path: Seq<char>) -> Walk {
    let k = asked(w.kept);
    Walk {
        kept: if has_room(w.kept) {
            Kept { dirs: k.dirs.push(path), ..k }
        } else {
            k
        },
        ev: w.ev + asked_events(w.kept),
    }
}

/// Whether a directory is to be passed over: its path stands in the list, with or without
/// the mark of a long path.
pub open spec fn is_ignored(path: Seq<char>, ignore: Set<Seq<char>>) -> bool {
    ignore.contains(lowercase(path)) || ignore.contains(lowercase(bare(path)))
}

fn ignores(ignore: &StringHashSet, path: &str) -> (out: bool)
    ensures
        out == is_ignored(path@, ignore@),
{
    ignore.contains(path.to_lowercase().as_str()) || ignore.contains(
        strip_prefix(path).to_lowercase().as_str(),
    )
}

/// Whether a directory is empty all the way down, and what was kept of it. A
/// directory that is ignored or cannot be listed counts as not empty, and so
/// does one with any file, link or reparse point below it.
pub open spec fn collected(w: Walk, dir: Entry, ignore: Set<Seq<char>>) -> (bool, Walk)
    decreases dir, 0int,
{
    if w.kept.truncated || is_ignored(dir.path@, ignore) {
        (false, w)
    } else {
        match dir.children {
            None => (
                false,
                Walk { ev: w.ev.push(EventV::Warn(unreadable_text(dir))), ..w },
            ),
            Some(c) => {
                let r = collected_in(w, c@, c@.len() as int, ignore);
                if r.0 {
                    (true, with_dir(r.1, dir.path@))
                } else {
                    (false, r.1)
                }
            },
        }
    }
}

/// The same for the first `n` entries of a directory.
pub open spec fn collected_in(
    w: Walk,
    entries: Seq<Entry>,
    n: int,
    ignore: Set<Seq<char>>,
) -> (bool, Walk)
    decreases entries, n,
{
    if n <= 0 || n > entries.len() {
        (true, w)
    } else {
        let before = collected_in(w, entries, n - 1, ignore);
        let e = entries[n - 1];
        match e.kind {
            Kind::Dir => if e.reparse {
                (false, before.1)
            } else {
                let r = collected(before.1, e, ignore);
                (before.0 && r.0, r.1)
            },
            Kind::File => (
                false,
                if e.size == 0 {
                    with_file(before.1, e.path@)
                } else {
                    before.1
                },
            ),
            Kind::Other => (false, before.1),
        }
    }
}

fn keep_file(path: &str, acc: &mut EmptyAccum, out: &mut Vec<Event>)
    ensures
        (Walk { kept: final(acc).view(), ev: events(final(out)@) }) == with_file(
            (Walk { kept: old(acc).view(), ev: events(old(out)@) }),
            path@,
        ),
{
    if acc.room(out) {
        let p: String = path.to_owned();
        proof {
            crate::text::lemma_texts_push(acc.files@, p);
        }
        acc.files.push(p);
    }
}

/// Collects what is empty in a directory, and tells whether all of it is.
pub fn collect_empty_fast(
    dir: &Entry,
    ignore: &StringHashSet,
    acc: &mut EmptyAccum,
    out: &mut Vec<Event>,
) -> (empty: bool)
    ensures
        (empty, (Walk { kept: final(acc).view(), ev: events(final(out)@) })) == collected(
            (Walk { kept: old(acc).view(), ev: events(old(out)@) }),
            *dir,
            ignore@,
        ),
    decreases dir,
{
    if acc.stopped() || ignores(ignore, dir.path.as_str()) {
        return false;
    }
    match &dir.children {
        None => {
            let m: String = unreadable(dir);
            proof {
                lemma_events_push(out@, Event::Warn(m));
            }
            out.push(Event::Warn(m));
            false
        },
        Some(list) => {
            let empty: bool = collect_entries(list, ignore, acc, out);
            if empty {
                if acc.room(out) {
                    let p: String = dir.path.clone();
                    proof {
                        crate::text::lemma_texts_push(acc.dirs@, p);
                    }
                    acc.dirs.push(p);
                }
            }
            empty
        },
    }
}

fn collect_entries(
    list: &Vec<Entry>,
    ignore: &StringHashSet,
    acc: &mut EmptyAccum,
    out: &mut Vec<Event>,
) -> (empty: bool)
    ensures
        (empty, (Walk { kept: final(acc).view(), ev: events(final(out)@) })) == collected_in(
            (Walk { kept: old(acc).view(), ev: events(old(out)@) }),
            list@,
            list@.len() as int,
            ignore@,
        ),
    decreases list,
{
    let ghost start = Walk { kept: acc.view(), ev: events(out@) };
    let mut empty: bool = true;
    let mut i: usize = 0;
    while i < list.len()
        invariant
            i <= list@.len(),
            start == (Walk { kept: old(acc).view(), ev: events(old(out)@) }),
            (empty, (Walk { kept: acc.view(), ev: events(out@) })) == collected_in(
                start,
                list@,
                i as int,
                ignore@,
            ),
        decreases list@.len() - i,
    {
        let e: &Entry = &list[i];
        match e.kind {
            Kind::Dir => {
                if e.reparse {
                    empty = false;
                } else {
                    let below: bool = collect_empty_fast(e, ignore, acc, out);
                    empty = empty && below;
                }
            },
            Kind::File => {
                if e.size == 0 {
                    keep_file(e.path.as_str(), acc, out);
                }
                empty = false;
            },
            Kind::Other => {
                empty = false;
            },
        }
        i += 1;
    }
    empty
}

// -------------------------------------------------------------- outermost directories

/// The position of the last separator before `n`.
pub open spec fn last_sep(p: Seq<char>, n: int) -> Option<int>
    decreases n,
{
    if n <= 0 || n > p.len() {
        None
    } else if p[n - 1] == '\\' || p[n - 1] == '/' {
        Some(n - 1)
    } else {
        last_sep(p, n - 1)
    }
}

proof fn lemma_last_sep(p: Seq<char>, n: int)
    requires
        0 <= n <= p.len(),
    ensures
        last_sep(p, n) matches Some(i) ==> 0 <= i < n,
    decreases n,
{
    if n > 0 {
        lemma_last_sep(p, n - 1);
    }
}

/// The directory that a path lies in; the root of a drive lies in none. Paths
/// are taken as a walk gives them, without a separator at the end.
pub open spec fn parent_of(p: Seq<char>) -> Option<Seq<char>> {
    match last_sep(p, p.len() as int) {
        None => if p.len() == 0 || p.last() == ':' {
            None
        } else {
            Some(Seq::empty())
        },
        Some(i) => if i + 1 == p.len() {
            None
        } else if i == 0 || (i == 2 && p[1] == ':') {
            Some(p.take(i + 1))
        } else {
            Some(p.take(i))
        },
    }
}

proof fn lemma_parent_shorter(p: Seq<char>)
    ensures
        parent_of(p) matches Some(q) ==> q.len() < p.len(),
{
    lemma_last_sep(p, p.len() as int);
}

/// The directory that a path lies in.
pub fn parent(p: &str) -> (out: Option<String>)
    ensures
        match out {
            Some(q) => parent_of(p@) == Some(q@),
            None => parent_of(p@) is None,
        },
{
    let a: Vec<char> = chars_of(p);
    let mut n: usize = a.len();
    while n > 0 && a[n - 1] != '\\' && a[n - 1] != '/'
        invariant
            n <= a@.len(),
            a@ == p@,
            last_sep(p@, p@.len() as int) == last_sep(p@, n as int),
        decreases n,
    {
        n -= 1;
    }
    if n == 0 {
        if a.len() == 0 || a[a.len() - 1] == ':' {
            return None;
        }
        let none: String = String::new();
        assert(none@ =~= Seq::empty());
        return Some(none);
    }
    let i: usize = n - 1;
    if n == a.len() {
        None
    } else if i == 0 || (i == 2 && a[1] == ':') {
        assert(a@.subrange(0, i + 1) =~= p@.take(i + 1));
        Some(string_of(&a, 0, i + 1))
    } else {
        assert(a@.subrange(0, i as int) =~= p@.take(i as int));
        Some(string_of(&a, 0, i))
    }
}

/// Whether the directory that a path lies in is of the set.
pub open spec fn inside(set: Set<Seq<char>>, d: Seq<char>) -> bool {
    parent_of(d) matches Some(p) && set.contains(p)
}

/// The outermost directory of the set that a directory leads up to.
pub open spec fn outermost(set: Set<Seq<char>>, d: Seq<char>) -> Seq<char>
    decreases d.len(),
{
    if inside(set, d) && parent_of(d)->0.len() < d.len() {
        outermost(set, parent_of(d)->0)
    } else {
        d
    }
}

/// The set of the given directories.
pub open spec fn dir_set(dirs: Seq<Seq<char>>) -> Set<Seq<char>> {
    dirs.to_set()
}

/// How many different directories among the first `n` lie inside `d` and have it
/// as their outermost one.
pub open spec fn nested_in(dirs: Seq<Seq<char>>, n: int, set: Set<Seq<char>>, d: Seq<char>) -> nat
    decreases n,
{
    if n <= 0 {
        0
    } else {
        let x = dirs[n - 1];
        nested_in(dirs, n - 1, set, d) + if !dirs.take(n - 1).contains(x) && x != d && outermost(
            set,
            x,
        ) == d {
            1nat
        } else {
            0
        }
    }
}

/// The outermost among the first `n` directories, each with the number of
/// directories that go with it.
pub open spec fn folded(dirs: Seq<Seq<char>>, n: int) -> Seq<(Seq<char>, nat)>
    decreases n,
{
    if n <= 0 {
        Seq::empty()
    } else {
        let before = folded(dirs, n - 1);
        let set = dir_set(dirs);
        if inside(set, dirs[n - 1]) {
            before
        } else {
            before.push((dirs[n - 1], nested_in(dirs, dirs.len() as int, set, dirs[n - 1])))
        }
    }
}

/// The values of a list of counted directories.
pub open spec fn counted(v: Seq<(String, usize)>) -> Seq<(Seq<char>, nat)> {
    Seq::new(v.len(), |i: int| (v[i].0@, v[i].1 as nat))
}

fn climb(set: &StringHashSet, d: &str) -> (out: String)
    ensures
        out@ == outermost(set@, d@),
{
    let mut cur: String = d.to_owned();
    loop
        invariant
            outermost(set@, d@) == outermost(set@, cur@),
        decreases cur@.len(),
    {
        proof {
            lemma_parent_shorter(cur@);
        }
        match parent(cur.as_str()) {
            Some(p) => {
                if !set.contains(p.as_str()) {
                    return cur;
                }
                cur = p;
            },
            None => {
                return cur;
            },
        }
    }
}

/// The number counted for a directory.
spec fn counted_for(m: Map<Seq<char>, usize>, d: Seq<char>) -> nat {
    if m.contains_key(d) {
        m[d] as nat
    } else {
        0
    }
}

/// Folds a set of empty directories: only those are kept whose own directory is
/// not of the set, each with the number of directories that go with it.
pub fn fold_empty_dirs(dirs: &Vec<String>) -> (out: Vec<(String, usize)>)
    ensures
        counted(out@) == folded(texts(dirs@), dirs@.len() as int),
{
    let ghost all = texts(dirs@);
    let ghost whole = dir_set(all);
    let mut set: StringHashSet = StringHashSet::new();
    let mut i: usize = 0;
    while i < dirs.len()
        invariant
            i <= dirs@.len(),
            all == texts(dirs@),
            set@ == all.take(i as int).to_set(),
        decreases dirs@.len() - i,
    {
        let s: String = dirs[i].clone();
        proof {
            assert(all.take(i + 1) =~= all.take(i as int).push(s@));
            all.take(i as int).lemma_push_to_set_commute(s@);
        }
        set.insert(s);
        i += 1;
    }
    assert(all.take(dirs@.len() as int) =~= all);
    let mut seen: StringHashSet = StringHashSet::new();
    let mut counts: StringHashMap<usize> = StringHashMap::new();
    let mut k: usize = 0;
    while k < dirs.len()
        invariant
            k <= dirs@.len(),
            all == texts(dirs@),
            whole == dir_set(all),
            set@ == whole,
            seen@ == all.take(k as int).to_set(),
            forall|d: Seq<char>| #[trigger]
                counted_for(counts@, d) == nested_in(all, k as int, whole, d),
            forall|d: Seq<char>| #[trigger] counted_for(counts@, d) <= k,
        decreases dirs@.len() - k,
    {
        let s: String = dirs[k].clone();
        let ghost before = counts@;
        proof {
            assert(all.take(k + 1) =~= all.take(k as int).push(s@));
            all.take(k as int).lemma_push_to_set_commute(s@);
            assert(seen@.contains(s@) == all.take(k as int).contains(s@));
        }
        let fresh: bool = !seen.contains(s.as_str());
        let root: String = climb(&set, s.as_str());
        if fresh && !same(root.as_str(), s.as_str()) {
            let n: usize = match counts.get(root.as_str()) {
                Some(n) => *n,
                None => 0,
            };
            assert(counted_for(before, root@) == n);
            counts.insert(root.clone(), n + 1);
            assert forall|d: Seq<char>| #[trigger] counted_for(counts@, d) == nested_in(
                all,
                k + 1,
                whole,
                d,
            ) by {
                assert(counted_for(before, d) == nested_in(all, k as int, whole, d));
            }
            assert forall|d: Seq<char>| #[trigger] counted_for(counts@, d) <= k + 1 by {
                assert(counted_for(before, d) <= k);
            }
        } else {
            assert forall|d: Seq<char>| #[trigger] counted_for(counts@, d) == nested_in(
                all,
                k + 1,
                whole,
                d,
            ) by {
                assert(counted_for(before, d) == nested_in(all, k as int, whole, d));
            }
        }
        seen.insert(s);
        k += 1;
    }
    let mut out: Vec<(String, usize)> = Vec::new();
    let mut j: usize = 0;
    assert(counted(out@) =~= Seq::empty());
    while j < dirs.len()
        invariant
            j <= dirs@.len(),
            all == texts(dirs@),
            whole == dir_set(all),
            set@ == whole,
            all.len() == dirs@.len(),
            forall|d: Seq<char>| #[trigger]
                counted_for(counts@, d) == nested_in(all, all.len() as int, whole, d),
            counted(out@) == folded(all, j as int),
        decreases dirs@.len() - j,
    {
        let within: bool = match parent(dirs[j].as_str()) {
            Some(p) => set.contains(p.as_str()),
            None => false,
        };
        if !within {
            let n: usize = match counts.get(dirs[j].as_str()) {
                Some(n) => *n,
                None => 0,
            };
            let ghost before = counted(out@);
            assert(counted_for(counts@, all[j as int]) == n);
            out.push((dirs[j].clone(), n));
            assert(counted(out@) =~= before.push((all[j as int], n as nat)));
        }
        j += 1;
    }
    out
}

// -------------------------------------------------------------------------- the scan

/// What is kept of the first `n` entries of a root: its empty files, and the
/// directories to go into.
pub open spec fn root_files(w: Walk, entries: Seq<Entry>, n: int) -> Walk
    decreases n,
{
    if n <= 0 {
        w
    } else {
        let before = root_files(w, entries, n - 1);
        let e = entries[n - 1];
        if e.kind == Kind::File && e.size == 0 {
            with_file(before, e.path@)
        } else {
            before
        }
    }
}

/// What is kept of the directories among the first `n` entries of a root.
pub open spec fn root_dirs(w: Walk, entries: Seq<Entry>, n: int, ignore: Set<Seq<char>>) -> Walk
    decreases n,
{
    if n <= 0 {
        w
    } else {
        let before = root_dirs(w, entries, n - 1, ignore);
        let e = entries[n - 1];
        if e.kind == Kind::Dir && !e.reparse && !is_ignored(e.path@, ignore) {
            collected(before, e, ignore).1
        } else {
            before
        }
    }
}

/// What is kept of one root, which itself is never a candidate.
pub open spec fn root_kept(w: Walk, root: Entry, ignore: Set<Seq<char>>) -> Walk {
    match root.children {
        None => Walk { ev: w.ev.push(EventV::Warn(unreadable_text(root))), ..w },
        Some(c) => {
            let files = root_files(w, c@, c@.len() as int);
            root_dirs(files, c@, c@.len() as int, ignore)
        },
    }
}

/// What is kept of the first `n` roots.
pub open spec fn roots_kept(w: Walk, roots: Seq<Entry>, n: int, ignore: Set<Seq<char>>) -> Walk
    decreases n,
{
    if n <= 0 {
        w
    } else {
        root_kept(roots_kept(w, roots, n - 1, ignore), roots[n - 1], ignore)
    }
}

/// The reports of the empty files.
pub open spec fn file_items(files: Seq<Seq<char>>) -> Seq<EventV> {
    Seq::new(files.len(), |i: int| item_event("emptyfile"@, files[i], 0, Seq::empty()))
}

/// The reports of the empty directories.
pub open spec fn dir_items(dirs: Seq<(Seq<char>, nat)>) -> Seq<EventV> {
    Seq::new(
        dirs.len(),
        |i: int|
            item_event("emptyfolder"@, dirs[i].0, 0, seq![("nested"@, dec(dirs[i].1))]),
    )
}

/// What the scan for empty files and directories reports.
pub open spec fn empty_report(roots: Seq<Entry>, ignore: Set<Seq<char>>) -> Seq<EventV> {
    let none = Walk {
        kept: Kept {
            files: Seq::empty(),
            dirs: Seq::empty(),
            kept: 0,
            truncated: false,
            cap: MAX_SCAN_ENTRIES as nat,
        },
        ev: Seq::empty(),
    };
    let w = roots_kept(none, roots, roots.len() as int, ignore);
    let end = if w.kept.truncated {
        seq![EventV::Truncated]
    } else {
        Seq::empty()
    };
    w.ev + file_items(w.kept.files) + dir_items(
        folded(w.kept.dirs, w.kept.dirs.len() as int),
    ) + end + seq![EventV::Progress(100)]
}

/// The directories that the user wants left alone: the lines of a list, in lower
/// case and without the blanks round them.
pub open spec fn ignored(lines: Seq<Seq<char>>, n: int) -> Set<Seq<char>>
    decreases n,
{
    if n <= 0 {
        Set::empty()
    } else {
        let t = crate::text::trimmed(lines[n - 1]);
        if t.len() > 0 {
            ignored(lines, n - 1).insert(lowercase(t))
        } else {
            ignored(lines, n - 1)
        }
    }
}

/// Reads the list of directories that the user wants left alone.
pub fn load_empty_ignore(lines: &Vec<String>) -> (out: StringHashSet)
    ensures
        out@ == ignored(texts(lines@), lines@.len() as int),
{
    let mut out: StringHashSet = StringHashSet::new();
    let mut i: usize = 0;
    while i < lines.len()
        invariant
            i <= lines@.len(),
            out@ == ignored(texts(lines@), i as int),
        decreases lines@.len() - i,
    {
        let t: String = crate::text::trim(lines[i].as_str());
        if t.as_str().unicode_len() > 0 {
            out.insert(t.to_lowercase());
        }
        i += 1;
    }
    out
}

fn keep_root(root: &Entry, ignore: &StringHashSet, acc: &mut EmptyAccum, out: &mut Vec<Event>)
    ensures
        (Walk { kept: final(acc).view(), ev: events(final(out)@) }) == root_kept(
            (Walk { kept: old(acc).view(), ev: events(old(out)@) }),
            *root,
            ignore@,
        ),
{
    let ghost start = Walk { kept: acc.view(), ev: events(out@) };
    match &root.children {
        None => {
            let m: String = unreadable(root);
            proof {
                lemma_events_push(out@, Event::Warn(m));
            }
            out.push(Event::Warn(m));
        },
        Some(c) => {
            let mut i: usize = 0;
            while i < c.len()
                invariant
                    i <= c@.len(),
                    (Walk { kept: acc.view(), ev: events(out@) }) == root_files(
                        start,
                        c@,
                        i as int,
                    ),
                decreases c@.len() - i,
            {
                if c[i].kind == Kind::File && c[i].size == 0 {
                    keep_file(c[i].path.as_str(), acc, out);
                }
                i += 1;
            }
            let ghost files = Walk { kept: acc.view(), ev: events(out@) };
            let mut k: usize = 0;
            while k < c.len()
                invariant
                    k <= c@.len(),
                    (Walk { kept: acc.view(), ev: events(out@) }) == root_dirs(
                        files,
                        c@,
                        k as int,
                        ignore@,
                    ),
                decreases c@.len() - k,
            {
                let e: &Entry = &c[k];
                if e.kind == Kind::Dir && !e.reparse && !ignores(ignore, e.path.as_str()) {
                    let _ = collect_empty_fast(e, ignore, acc, out);
                }
                k += 1;
            }
        },
    }
}

fn report_empty(acc: &EmptyAccum, out: &mut Vec<Event>)
    ensures
        events(final(out)@) == events(old(out)@) + file_items(acc.view().files) + dir_items(
            folded(acc.view().dirs, acc.view().dirs.len() as int),
        ),
{
    let ghost before = events(out@);
    let ghost files = file_items(acc.view().files);
    let mut i: usize = 0;
    assert(before + files.take(0) =~= before);
    while i < acc.files.len()
        invariant
            i <= acc.files@.len(),
            files == file_items(acc.view().files),
            events(out@) == before + files.take(i as int),
        decreases acc.files@.len() - i,
    {
        let e: Event = plain_item("emptyfile", acc.files[i].as_str(), 0);
        proof {
            lemma_events_push(out@, e);
            assert(e.view() == files[i as int]);
            assert(before + files.take(i + 1) =~= (before + files.take(i as int)).push(
                files[i as int],
            ));
        }
        out.push(e);
        i += 1;
    }
    assert(files.take(acc.files@.len() as int) =~= files);
    let list: Vec<(String, usize)> = fold_empty_dirs(&acc.dirs);
    assert(texts(acc.dirs@).len() == acc.dirs@.len());
    let ghost mid = events(out@);
    let ghost dirs = dir_items(counted(list@));
    let mut k: usize = 0;
    assert(mid + dirs.take(0) =~= mid);
    while k < list.len()
        invariant
            k <= list@.len(),
            dirs == dir_items(counted(list@)),
            events(out@) == mid + dirs.take(k as int),
        decreases list@.len() - k,
    {
        let e: Event = item_with(
            "emptyfolder",
            list[k].0.as_str(),
            0,
            "nested",
            decimal(list[k].1 as u64),
        );
        proof {
            lemma_events_push(out@, e);
            assert(e.view() == dirs[k as int]);
            assert(mid + dirs.take(k + 1) =~= (mid + dirs.take(k as int)).push(dirs[k as int]));
        }
        out.push(e);
        k += 1;
    }
    assert(dirs.take(list@.len() as int) =~= dirs);
}

/// Reports the empty files and the outermost empty directories below the roots.
pub fn empty(roots: &Vec<Entry>, ignore: &StringHashSet) -> (out: Vec<Event>)
    ensures
        events(out@) == empty_report(roots@, ignore@),
{
    let mut out: Vec<Event> = Vec::new();
    let mut acc: EmptyAccum = EmptyAccum::new();
    assert(events(out@) =~= Seq::empty());
    let ghost none = Walk { kept: acc.view(), ev: events(out@) };
    let mut i: usize = 0;
    while i < roots.len()
        invariant
            i <= roots@.len(),
            (Walk { kept: acc.view(), ev: events(out@) }) == roots_kept(
                none,
                roots@,
                i as int,
                ignore@,
            ),
        decreases roots@.len() - i,
    {
        keep_root(&roots[i], ignore, &mut acc, &mut out);
        i += 1;
    }
    report_empty(&acc, &mut out);
    let ghost body = events(out@);
    assert(body + Seq::<EventV>::empty() =~= body);
    if acc.stopped() {
        proof {
            lemma_events_push(out@, Event::Truncated);
        }
        out.push(Event::Truncated);
    }
    let e: Event = progress(100);
    proof {
        lemma_events_push(out@, e);
    }
    out.push(e);
    out
}

// -------------------------------------------------------------------------------- laws

/// No entry is kept beyond the limit, and the limit is warned of once.
pub proof fn law_empty_limit(k: Kept)
    requires
        k.kept <= k.cap,
    ensures
        asked(k).kept <= k.cap,
        k.truncated ==> asked_events(k).len() == 0 && asked(k).truncated,
        !has_room(k) ==> asked(k).truncated && !has_room(asked(k)),
{
}

/// A directory of the result does not lie directly in another of the set: what
/// would go with its own directory is not offered a second time.
pub proof fn law_folded_outermost(dirs: Seq<Seq<char>>, n: int)
    requires
        0 <= n <= dirs.len(),
    ensures
        forall|i: int|
            0 <= i < folded(dirs, n).len() ==> dirs.contains((#[trigger] folded(dirs, n)[i]).0)
                && !inside(dir_set(dirs), folded(dirs, n)[i].0),
        forall|j: int|
            0 <= j < n && !inside(dir_set(dirs), #[trigger] dirs[j]) ==> exists|i: int|
                0 <= i < folded(dirs, n).len() && (#[trigger] folded(dirs, n)[i]).0 == dirs[j],
    decreases n,
{
    if n > 0 {
        law_folded_outermost(dirs, n - 1);
        let before = folded(dirs, n - 1);
        let now = folded(dirs, n);
        assert forall|i: int| 0 <= i < now.len() implies dirs.contains((#[trigger] now[i]).0)
            && !inside(dir_set(dirs), now[i].0) by {
            if i < before.len() {
                assert(now[i] == before[i]);
            } else {
                assert(now[i].0 == dirs[n - 1]);
            }
        }
        assert forall|j: int| 0 <= j < n && !inside(dir_set(dirs), #[trigger] dirs[j]) implies
            exists|i: int| 0 <= i < now.len() && (#[trigger] now[i]).0 == dirs[j] by {
            if j < n - 1 {
                let i = choose|i: int|
                    0 <= i < before.len() && (#[trigger] before[i]).0 == dirs[j];
                assert(now[i] == before[i]);
            } else {
                assert(now[before.len() as int].0 == dirs[j]);
            }
        }
    }
}

proof fn lemma_outermost(set: Set<Seq<char>>, d: Seq<char>)
    requires
        set.contains(d),
    ensures
        set.contains(outermost(set, d)),
        !inside(set, outermost(set, d)),
        inside(set, d) ==> outermost(set, d) != d,
    decreases d.len(),
{
    lemma_parent_shorter(d);
    if inside(set, d) {
        let p = parent_of(d)->0;
        lemma_outermost(set, p);
        lemma_outermost_length(set, p);
    }
}

proof fn lemma_outermost_length(set: Set<Seq<char>>, d: Seq<char>)
    ensures
        outermost(set, d).len() <= d.len(),
    decreases d.len(),
{
    if inside(set, d) && parent_of(d)->0.len() < d.len() {
        lemma_outermost_length(set, parent_of(d)->0);
    }
}

/// The numbers beside the first `n` directories of a result, each plus one, added up.
pub open spec fn covered(list: Seq<(Seq<char>, nat)>, n: int) -> nat
    decreases n,
{
    if n <= 0 {
        0
    } else {
        covered(list, n - 1) + list[n - 1].1 + 1
    }
}

/// How many of the first `m` directories go with the first `n` of a result.
spec fn nested_sum(
    dirs: Seq<Seq<char>>,
    m: int,
    set: Set<Seq<char>>,
    list: Seq<(Seq<char>, nat)>,
    n: int,
) -> nat
    decreases n,
{
    if n <= 0 {
        0
    } else {
        nested_sum(dirs, m, set, list, n - 1) + nested_in(dirs, m, set, list[n - 1].0)
    }
}

proof fn lemma_folded_apart(dirs: Seq<Seq<char>>, n: int)
    requires
        0 <= n <= dirs.len(),
        dirs.no_duplicates(),
    ensures
        forall|i: int, j: int|
            0 <= i < j < folded(dirs, n).len() ==> (#[trigger] folded(dirs, n)[i]).0 != (
            #[trigger] folded(dirs, n)[j]).0,
        forall|i: int|
            0 <= i < folded(dirs, n).len() ==> dirs.take(n).contains(
                (#[trigger] folded(dirs, n)[i]).0,
            ),
    decreases n,
{
    if n > 0 {
        lemma_folded_apart(dirs, n - 1);
        let before = folded(dirs, n - 1);
        let now = folded(dirs, n);
        assert forall|i: int| 0 <= i < now.len() implies dirs.take(n).contains(
            (#[trigger] now[i]).0,
        ) by {
            if i < before.len() {
                assert(now[i] == before[i]);
                let k = choose|k: int|
                    0 <= k < n - 1 && #[trigger] dirs.take(n - 1)[k] == before[i].0;
                assert(dirs.take(n)[k] == now[i].0);
            } else {
                assert(dirs.take(n)[n - 1] == now[i].0);
            }
        }
        assert forall|i: int, j: int| 0 <= i < j < now.len() implies (#[trigger] now[i]).0 != (
        #[trigger] now[j]).0 by {
            assert(now[i] == before[i]);
            if j < before.len() {
                assert(now[j] == before[j]);
            } else {
                assert(dirs.take(n - 1).contains(before[i].0));
                let k = choose|k: int|
                    0 <= k < n - 1 && #[trigger] dirs.take(n - 1)[k] == before[i].0;
                assert(dirs[k] == before[i].0 && k != n - 1);
            }
        }
    }
}

proof fn lemma_fresh(dirs: Seq<Seq<char>>, m: int)
    requires
        0 < m <= dirs.len(),
        dirs.no_duplicates(),
    ensures
        !dirs.take(m - 1).contains(dirs[m - 1]),
{
    if dirs.take(m - 1).contains(dirs[m - 1]) {
        let k = choose|k: int| 0 <= k < m - 1 && #[trigger] dirs.take(m - 1)[k] == dirs[m - 1];
        assert(dirs[k] == dirs[m - 1]);
    }
}

proof fn lemma_sum_step(
    dirs: Seq<Seq<char>>,
    m: int,
    set: Set<Seq<char>>,
    list: Seq<(Seq<char>, nat)>,
    n: int,
)
    requires
        0 < m <= dirs.len(),
        0 <= n <= list.len(),
        dirs.no_duplicates(),
        forall|i: int, j: int|
            0 <= i < j < list.len() ==> (#[trigger] list[i]).0 != (#[trigger] list[j]).0,
    ensures
        nested_sum(dirs, m, set, list, n) == nested_sum(dirs, m - 1, set, list, n) + if (exists|
            i: int,
        |
            0 <= i < n && (#[trigger] list[i]).0 == outermost(set, dirs[m - 1])) && outermost(
            set,
            dirs[m - 1],
        ) != dirs[m - 1] {
            1nat
        } else {
            0
        },
    decreases n,
{
    if n > 0 {
        let r = outermost(set, dirs[m - 1]);
        lemma_sum_step(dirs, m, set, list, n - 1);
        lemma_fresh(dirs, m);
        if list[n - 1].0 == r {
            assert forall|i: int| 0 <= i < n - 1 implies (#[trigger] list[i]).0 != r by {
                assert(list[i].0 != list[n - 1].0);
            }
        } else {
            if exists|i: int| 0 <= i < n && (#[trigger] list[i]).0 == r {
                let i = choose|i: int| 0 <= i < n && (#[trigger] list[i]).0 == r;
                assert(i < n - 1);
            }
        }
    }
}

proof fn lemma_all_covered(dirs: Seq<Seq<char>>, m: int)
    requires
        0 <= m <= dirs.len(),
        dirs.no_duplicates(),
    ensures
        ({
            let list = folded(dirs, dirs.len() as int);
            nested_sum(dirs, m, dir_set(dirs), list, list.len() as int) + folded(dirs, m).len() == m
        }),
    decreases m,
{
    let set = dir_set(dirs);
    let list = folded(dirs, dirs.len() as int);
    if m > 0 {
        lemma_all_covered(dirs, m - 1);
        lemma_folded_apart(dirs, dirs.len() as int);
        lemma_sum_step(dirs, m, set, list, list.len() as int);
        let x = dirs[m - 1];
        assert(set.contains(x));
        lemma_outermost(set, x);
        if inside(set, x) {
            let r = outermost(set, x);
            assert(dirs.contains(r));
            let j = choose|j: int| 0 <= j < dirs.len() && dirs[j] == r;
            law_folded_outermost(dirs, dirs.len() as int);
            assert(!inside(set, dirs[j]));
        }
    } else {
        lemma_nothing_nested(dirs, set, list, list.len() as int);
    }
}

proof fn lemma_nothing_nested(
    dirs: Seq<Seq<char>>,
    set: Set<Seq<char>>,
    list: Seq<(Seq<char>, nat)>,
    n: int,
)
    ensures
        nested_sum(dirs, 0, set, list, n) == 0,
    decreases n,
{
    if n > 0 {
        lemma_nothing_nested(dirs, set, list, n - 1);
    }
}

proof fn lemma_covered(dirs: Seq<Seq<char>>, m: int)
    requires
        0 <= m <= dirs.len(),
    ensures
        ({
            let set = dir_set(dirs);
            let list = folded(dirs, m);
            let n = list.len() as int;
            covered(list, n) == nested_sum(dirs, dirs.len() as int, set, list, n) + n
        }),
    decreases m,
{
    if m > 0 {
        lemma_covered(dirs, m - 1);
        let before = folded(dirs, m - 1);
        let list = folded(dirs, m);
        let n = before.len() as int;
        if list.len() > before.len() {
            lemma_same_front(dirs, before, list, n);
        }
    }
}

proof fn lemma_same_front(
    dirs: Seq<Seq<char>>,
    a: Seq<(Seq<char>, nat)>,
    b: Seq<(Seq<char>, nat)>,
    n: int,
)
    requires
        0 <= n <= a.len(),
        n <= b.len(),
        forall|i: int| 0 <= i < n ==> (#[trigger] b[i]) == a[i],
    ensures
        covered(b, n) == covered(a, n),
        nested_sum(dirs, dirs.len() as int, dir_set(dirs), b, n) == nested_sum(
            dirs,
            dirs.len() as int,
            dir_set(dirs),
            a,
            n,
        ),
    decreases n,
{
    if n > 0 {
        lemma_same_front(dirs, a, b, n - 1);
        assert(b[n - 1] == a[n - 1]);
    }
}

/// No directory is lost and none is counted twice: the numbers beside the outermost
/// directories, each plus one for the directory itself, add up to the number of directories.
pub proof fn law_folded_counts_all(dirs: Seq<Seq<char>>)
    requires
        dirs.no_duplicates(),
    ensures
        ({
            let list = folded(dirs, dirs.len() as int);
            covered(list, list.len() as int) == dirs.len()
        }),
{
    lemma_all_covered(dirs, dirs.len() as int);
    lemma_covered(dirs, dirs.len() as int);
}

/// A directory that is to be passed over is neither reported nor looked into, and it keeps
/// the directory above it from counting as empty.
pub proof fn law_ignored_is_left(w: Walk, dir: Entry, ignore: Set<Seq<char>>)
    requires
        is_ignored(dir.path@, ignore),
    ensures
        collected(w, dir, ignore) == (false, w),
{
}

} // verus!
