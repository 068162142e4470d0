//! Which files below a directory could be deleted now, and how much they hold.

use crate::glob::{expand_glob_dirs, glob_dirs};
use crate::json::{array_member, count_member, member, text_member, values, Json, JsonV};
use crate::rulepath::{expand_env_path, expanded};
use crate::text::{
    cap64, listed, lowercase, rows, same, starts_with, texts, trim_trailing, without_trailing,
};
use crate::wildcard::{name_matches, wildcard_match};
use crate::world::{Entry, Kind, World};
use vstd::hash_set::StringHashSet;
use vstd::prelude::*;

verus! {

/// The files that could be deleted, and the number of files that were looked
/// at; the rest of them are in use.
#[derive(Debug)]
pub struct DeletableResult {
    pub files: Vec<(String, u64)>,
    pub total: u64,
}

/// Whether a file of this name counts.
pub open spec fn wanted(name: Seq<char>, all: bool, pattern: Seq<char>) -> bool {
    all || name_matches(name, pattern)
}

/// The deletable files of one entry and everything below it, and the number of
/// files seen. Reparse points are neither counted nor entered.
pub open spec fn files_of(e: Entry, all: bool, pattern: Seq<char>) -> (Seq<(Seq<char>, u64)>, nat)
    decreases e, 0int,
{
    if e.reparse {
        (Seq::empty(), 0)
    } else if e.kind == Kind::Dir {
        match e.children {
            Some(c) => files_in(c@, c@.len() as int, all, pattern),
            None => (Seq::empty(), 0),
        }
    } else if e.kind == Kind::File && wanted(e.name@, all, pattern) {
        if e.openable {
            (seq![(e.path@, e.size)], 1)
        } else {
            (Seq::empty(), 1)
        }
    } else {
        (Seq::empty(), 0)
    }
}

/// The same over the first `n` entries of a directory.
pub open spec fn files_in(entries: Seq<Entry>, n: int, all: bool, pattern: Seq<char>) -> (
    Seq<(Seq<char>, u64)>,
    nat,
)
    decreases entries, n,
{
    if n <= 0 || n > entries.len() {
        (Seq::empty(), 0)
    } else {
        let before = files_in(entries, n - 1, all, pattern);
        let more = files_of(entries[n - 1], all, pattern);
        (before.0 + more.0, before.1 + more.1)
    }
}

/// No more files can be deleted than were seen.
proof fn lemma_files_of(e: Entry, all: bool, pattern: Seq<char>)
    ensures
        files_of(e, all, pattern).0.len() <= files_of(e, all, pattern).1,
    decreases e, 0int,
{
    if !e.reparse && e.kind == Kind::Dir {
        match e.children {
            Some(c) => lemma_files_in(c@, c@.len() as int, all, pattern),
            None => {},
        }
    }
}

pub proof fn lemma_files_in(entries: Seq<Entry>, n: int, all: bool, pattern: Seq<char>)
    ensures
        files_in(entries, n, all, pattern).0.len() <= files_in(entries, n, all, pattern).1,
    decreases entries, n,
{
    if 0 < n <= entries.len() {
        lemma_files_in(entries, n - 1, all, pattern);
        lemma_files_of(entries[n - 1], all, pattern);
    }
}

fn walk_deletable(entries: &Vec<Entry>, all: bool, pattern: &str, res: &mut DeletableResult)
    ensures
        rows(final(res).files@) == rows(old(res).files@) + files_in(
            entries@,
            entries@.len() as int,
            all,
            pattern@,
        ).0,
        final(res).total == cap64(
            (old(res).total + files_in(entries@, entries@.len() as int, all, pattern@).1) as nat,
        ),
    decreases entries,
{
    let mut i: usize = 0;
    assert(rows(res.files@) =~= rows(res.files@) + Seq::empty());
    while i < entries.len()
        invariant
            i <= entries@.len(),
            rows(res.files@) == rows(old(res).files@) + files_in(
                entries@,
                i as int,
                all,
                pattern@,
            ).0,
            res.total == cap64(
                (old(res).total + files_in(entries@, i as int, all, pattern@).1) as nat,
            ),
        decreases entries@.len() - i,
    {
        let e: &Entry = &entries[i];
        let ghost before = rows(res.files@);
        let ghost more = files_of(*e, all, pattern@);
        assert(before + Seq::empty() =~= before);
        if !e.reparse {
            if e.kind == Kind::Dir {
                match &e.children {
                    Some(c) => {
                        walk_deletable(c, all, pattern, res);
                    },
                    None => {},
                }
            } else if e.kind == Kind::File && (all || wildcard_match(e.name.as_str(), pattern)) {
                res.total = res.total.saturating_add(1);
                if e.openable {
                    res.files.push((e.path.clone(), e.size));
                    assert(rows(res.files@) =~= before + seq![(e.path@, e.size)]);
                }
            }
        }
        assert(rows(res.files@) == before + more.0);
        i += 1;
        assert(rows(res.files@) =~= rows(old(res).files@) + files_in(
            entries@,
            i as int,
            all,
            pattern@,
        ).0);
    }
}

/// Whether a pattern is the one that every name matches.
pub open spec fn is_all(pattern: Seq<char>) -> bool {
    pattern.len() == 0 || pattern == "*"@
}

/// The deletable files at and below a path, and the number of files seen.
pub open spec fn deletable_at(w: World, root: Seq<char>, pattern: Seq<char>) -> (
    Seq<(Seq<char>, u64)>,
    nat,
) {
    match w.at(root) {
        Some(e) => if is_all(pattern) && e.kind == Kind::File {
            (
                if e.openable {
                    seq![(root, e.size)]
                } else {
                    Seq::empty()
                },
                1,
            )
        } else {
            files_in(w.listing(root), w.listing(root).len() as int, is_all(pattern), pattern)
        },
        None => (Seq::empty(), 0),
    }
}

/// The files at and below a path that could be deleted. A pattern other than
/// `*` counts only the files whose names match it.
pub fn list_deletable(root: &str, pattern: &str, world: &World) -> (out: DeletableResult)
    ensures
        rows(out.files@) == deletable_at(*world, root@, pattern@).0,
        out.total == cap64(deletable_at(*world, root@, pattern@).1),
{
    let all: bool = pattern.unicode_len() == 0 || same(pattern, "*");
    let mut res: DeletableResult = DeletableResult { files: Vec::new(), total: 0 };
    assert(rows(res.files@) =~= Seq::empty());
    match world.find(root) {
        Some(e) => {
            if all && e.kind == Kind::File {
                if e.openable {
                    res.files.push((root.to_owned(), e.size));
                    assert(rows(res.files@) =~= seq![(root@, e.size)]);
                }
                res.total = 1;
            } else {
                match &e.children {
                    Some(c) => {
                        walk_deletable(c, all, pattern, &mut res);
                        assert(rows(res.files@) =~= deletable_at(*world, root@, pattern@).0);
                    },
                    None => {},
                }
            }
        },
        None => {},
    }
    res
}

// ---------------------------------------------------------------- one path only

/// The size of what a path holds: `ok` is false where it could not be read,
/// `locked` counts the files in use, which `size` leaves out.
#[derive(Clone, Copy, Debug)]
pub struct PathStats {
    pub ok: bool,
    pub missing: bool,
    pub size: u64,
    pub nfiles: u64,
    pub locked: u64,
}

/// The sum of the sizes of the first `n` files.
pub open spec fn total_size(files: Seq<(Seq<char>, u64)>, n: int) -> nat
    decreases n,
{
    if n <= 0 {
        0
    } else {
        total_size(files, n - 1) + files[n - 1].1 as nat
    }
}

/// What is measured at a path.
pub open spec fn stats_at(w: World, path: Seq<char>) -> PathStats {
    let unreadable = PathStats { ok: false, missing: false, size: 0, nfiles: 0, locked: 0 };
    if path.len() == 0 {
        PathStats { ok: false, missing: true, size: 0, nfiles: 0, locked: 0 }
    } else {
        match w.at(path) {
            None => PathStats { ok: true, missing: true, size: 0, nfiles: 0, locked: 0 },
            Some(e) => match e.kind {
                Kind::Dir => if e.children is None {
                    unreadable
                } else {
                    let found = deletable_at(w, path, "*"@);
                    PathStats {
                        ok: true,
                        missing: false,
                        size: cap64(total_size(found.0, found.0.len() as int)) as u64,
                        nfiles: found.0.len() as u64,
                        locked: (cap64(found.1) - found.0.len()) as u64,
                    }
                },
                Kind::File => if e.openable {
                    PathStats { ok: true, missing: false, size: e.size, nfiles: 1, locked: 0 }
                } else {
                    PathStats { ok: true, missing: false, size: 0, nfiles: 0, locked: 1 }
                },
                Kind::Other => PathStats { ok: true, missing: true, size: 0, nfiles: 0, locked: 0 },
            },
        }
    }
}

fn sum_sizes(files: &Vec<(String, u64)>) -> (out: u64)
    ensures
        out == cap64(total_size(rows(files@), files@.len() as int)),
{
    let mut sum: u64 = 0;
    let mut i: usize = 0;
    while i < files.len()
        invariant
            i <= files@.len(),
            sum == cap64(total_size(rows(files@), i as int)),
        decreases files@.len() - i,
    {
        sum = sum.saturating_add(files[i].1);
        i += 1;
    }
    sum
}

/// Measures a path: the files that could be deleted, and how many are in use. A
/// directory that cannot be listed is not reported as empty.
pub fn get_path_deletable_stats(path: &str, world: &World) -> (out: PathStats)
    ensures
        out == stats_at(*world, path@),
{
    if path.unicode_len() == 0 {
        return PathStats { ok: false, missing: true, size: 0, nfiles: 0, locked: 0 };
    }
    match world.find(path) {
        None => PathStats { ok: true, missing: true, size: 0, nfiles: 0, locked: 0 },
        Some(e) => match e.kind {
            Kind::Dir => {
                if e.children.is_none() {
                    return PathStats { ok: false, missing: false, size: 0, nfiles: 0, locked: 0 };
                }
                let res: DeletableResult = list_deletable(path, "*", world);
                proof {
                    reveal_strlit("*");
                    lemma_files_in(
                        world.listing(path@),
                        world.listing(path@).len() as int,
                        true,
                        "*"@,
                    );
                }
                assert(rows(res.files@).len() == res.files@.len());
                let nfiles: usize = res.files.len();
                let size: u64 = sum_sizes(&res.files);
                PathStats {
                    ok: true,
                    missing: false,
                    size,
                    nfiles: nfiles as u64,
                    locked: res.total - nfiles as u64,
                }
            },
            Kind::File => {
                if e.openable {
                    PathStats { ok: true, missing: false, size: e.size, nfiles: 1, locked: 0 }
                } else {
                    PathStats { ok: true, missing: false, size: 0, nfiles: 0, locked: 1 }
                }
            },
            Kind::Other => PathStats { ok: true, missing: true, size: 0, nfiles: 0, locked: 0 },
        },
    }
}

// ------------------------------------------------------------------- file keys

/// How many files one item may plan to delete.
pub const PLAN_CAP_PER_ITEM: usize = 100_000;

/// How many files one scan may plan to delete.
pub const PLAN_CAP_TOTAL: usize = 1_000_000;

/// How many levels below its directory a snapshot goes.
pub const SNAPSHOT_DEPTH: usize = 24;

/// The long form of a path where the system knows one, else the path itself.
pub open spec fn long_path(p: Seq<char>, known: Option<String>) -> Seq<char> {
    match known {
        Some(l) => l@,
        None => p,
    }
}

/// The long form of a path where the system knows one, else the path itself.
pub fn to_long_path(p: &str, known: &Option<String>) -> (out: String)
    ensures
        out@ == long_path(p@, *known),
{
    match known {
        Some(l) => l.clone(),
        None => p.to_owned(),
    }
}

/// What a rule's file keys ask for: which names count, whether to go into
/// subdirectories, whether files are counted once (`snapshot`), whether files
/// in use count as well (`skip_lock`), and what is left out.
#[derive(Debug)]
pub struct FkOpts {
    pub all: bool,
    pub pattern: String,
    pub recurse: bool,
    pub snapshot: bool,
    pub skip_lock: bool,
    pub excl_dirs: Vec<String>,
    pub excl_files: Vec<String>,
}

/// The mathematical value of the options.
pub ghost struct Opts {
    pub all: bool,
    pub pattern: Seq<char>,
    pub recurse: bool,
    pub snapshot: bool,
    pub skip_lock: bool,
    pub excl_dirs: Seq<Seq<char>>,
    pub excl_files: Seq<Seq<char>>,
}

impl FkOpts {
    pub open spec fn view(self) -> Opts {
        Opts {
            all: self.all,
            pattern: self.pattern@,
            recurse: self.recurse,
            snapshot: self.snapshot,
            skip_lock: self.skip_lock,
            excl_dirs: texts(self.excl_dirs@),
            excl_files: texts(self.excl_files@),
        }
    }
}

/// What has been found for one item so far.
pub ghost struct Found {
    /// The lower case paths met.
    pub seen: Set<Seq<char>>,
    /// The files planned, under their long paths.
    pub files: Seq<(Seq<char>, u64)>,
    pub size: nat,
    pub locked: nat,
    /// The files planned by the whole scan.
    pub rows: nat,
    pub truncated: bool,
}

/// A file put on the plan, as long as neither limit is reached.
pub open spec fn planned(f: Found, path: Seq<char>, size: u64) -> Found {
    if f.files.len() >= PLAN_CAP_PER_ITEM || f.rows >= PLAN_CAP_TOTAL {
        Found { truncated: true, ..f }
    } else {
        Found {
            files: f.files.push((path, size)),
            size: f.size + size as nat,
            rows: f.rows + 1,
            ..f
        }
    }
}

/// Whether a lower case path lies below one of the directories, or is one of
/// the files, that a rule leaves out.
pub open spec fn left_out(low: Seq<char>, dirs: Seq<Seq<char>>, files: Seq<Seq<char>>) -> bool {
    (exists|k: int| 0 <= k < dirs.len() && (#[trigger] dirs[k] + "\\"@).is_prefix_of(low))
        || files.contains(low)
}

/// A file met by a rule's file keys.
pub open spec fn file_found(f: Found, e: Entry, o: Opts) -> Found {
    let low = lowercase(e.path@);
    let path = long_path(e.path@, e.long);
    let fresh = !f.seen.contains(low);
    let noted = Found { seen: f.seen.insert(low), ..f };
    if left_out(low, o.excl_dirs, o.excl_files) || !wanted(
        e.name@,
        o.all,
        o.pattern,
    ) {
        f
    } else if o.snapshot {
        if !fresh {
            f
        } else if o.skip_lock || e.openable {
            planned(noted, path, e.size)
        } else {
            Found { locked: f.locked + 1, ..noted }
        }
    } else if !e.openable {
        Found { locked: f.locked + 1, ..f }
    } else if fresh {
        planned(noted, path, e.size)
    } else {
        f
    }
}

/// An entry met at a depth below the directory of a file key.
pub open spec fn entry_found(f: Found, e: Entry, depth: nat, o: Opts) -> Found
    decreases e, 0int,
{
    if e.reparse {
        f
    } else if e.kind == Kind::Dir {
        if o.recurse && (!o.snapshot || depth < SNAPSHOT_DEPTH) {
            match e.children {
                Some(c) => entries_found(f, c@, c@.len() as int, depth + 1, o),
                None => f,
            }
        } else {
            f
        }
    } else if e.kind == Kind::File {
        file_found(f, e, o)
    } else {
        f
    }
}

/// The first `n` entries of a directory at a depth.
pub open spec fn entries_found(
    f: Found,
    entries: Seq<Entry>,
    n: int,
    depth: nat,
    o: Opts,
) -> Found
    decreases entries, n,
{
    if n <= 0 || n > entries.len() {
        f
    } else {
        entry_found(entries_found(f, entries, n - 1, depth, o), entries[n - 1], depth, o)
    }
}

/// What has been found for one item so far.
pub struct FkAcc {
    pub seen: StringHashSet,
    pub files: Vec<(String, u64)>,
    pub total_size: u64,
    pub locked: u64,
    pub global_rows: usize,
    pub truncated: bool,
}

impl FkAcc {
    /// Whether this holds what was found, each number at most the largest that
    /// fits.
    pub open spec fn holds(self, f: Found) -> bool {
        &&& self.seen@ == f.seen
        &&& rows(self.files@) == f.files
        &&& self.total_size == cap64(f.size)
        &&& self.locked == cap64(f.locked)
        &&& self.global_rows == f.rows
        &&& self.truncated == f.truncated
        &&& self.global_rows <= PLAN_CAP_TOTAL
    }

    /// Puts a file on the plan, as long as neither limit is reached.
    pub fn push_budget(&mut self, full: String, size: u64)
        ensures
            final(self).seen == old(self).seen,
            final(self).locked == old(self).locked,
            if old(self).files@.len() >= PLAN_CAP_PER_ITEM || old(self).global_rows
                >= PLAN_CAP_TOTAL {
                &&& final(self).truncated
                &&& final(self).files == old(self).files
                &&& final(self).total_size == old(self).total_size
                &&& final(self).global_rows == old(self).global_rows
            } else {
                &&& final(self).truncated == old(self).truncated
                &&& rows(final(self).files@) == rows(old(self).files@).push((full@, size))
                &&& final(self).total_size == cap64((old(self).total_size + size) as nat)
                &&& final(self).global_rows == old(self).global_rows + 1
            },
    {
        if self.files.len() >= PLAN_CAP_PER_ITEM || self.global_rows >= PLAN_CAP_TOTAL {
            self.truncated = true;
            return ;
        }
        self.total_size = self.total_size.saturating_add(size);
        let ghost before = rows(self.files@);
        self.files.push((full, size));
        assert(rows(self.files@) =~= before.push((full@, size)));
        self.global_rows += 1;
    }
}

fn is_left_out(low: &str, dirs: &Vec<String>, files: &Vec<String>) -> (out: bool)
    ensures
        out == left_out(low@, texts(dirs@), texts(files@)),
{
    let mut i: usize = 0;
    while i < dirs.len()
        invariant
            i <= dirs@.len(),
            forall|k: int|
                0 <= k < i ==> !(#[trigger] texts(dirs@)[k] + "\\"@).is_prefix_of(low@),
        decreases dirs@.len() - i,
    {
        let mut d: String = dirs[i].clone();
        d.append("\\");
        if starts_with(low, d.as_str()) {
            assert((texts(dirs@)[i as int] + "\\"@).is_prefix_of(low@));
            return true;
        }
        i += 1;
    }
    listed(files, low)
}

fn walk_fk_file(e: &Entry, o: &FkOpts, acc: &mut FkAcc, Ghost(f): Ghost<Found>)
    requires
        old(acc).holds(f),
    ensures
        final(acc).holds(file_found(f, *e, o.view())),
{
    let low: String = e.path.to_lowercase();
    if is_left_out(low.as_str(), &o.excl_dirs, &o.excl_files) || !(o.all || wildcard_match(
        e.name.as_str(),
        o.pattern.as_str(),
    )) {
        return ;
    }
    if !o.snapshot && !e.openable {
        acc.locked = acc.locked.saturating_add(1);
        return ;
    }
    if acc.seen.contains(low.as_str()) {
        return ;
    }
    let ghost noted = Found { seen: f.seen.insert(low@), ..f };
    acc.seen.insert(low);
    assert(acc.holds(noted));
    if e.openable || o.skip_lock && o.snapshot {
        let path: String = to_long_path(e.path.as_str(), &e.long);
        assert(rows(acc.files@).len() == acc.files@.len());
        acc.push_budget(path, e.size);
    } else {
        acc.locked = acc.locked.saturating_add(1);
    }
}

fn walk_fk(entries: &Vec<Entry>, depth: usize, o: &FkOpts, acc: &mut FkAcc, Ghost(f): Ghost<Found>)
    requires
        old(acc).holds(f),
        o.snapshot ==> depth <= SNAPSHOT_DEPTH,
    ensures
        o.snapshot ==> final(acc).holds(
            entries_found(f, entries@, entries@.len() as int, depth as nat, o.view()),
        ),
        !o.snapshot ==> final(acc).holds(
            entries_found(f, entries@, entries@.len() as int, 0, o.view()),
        ),
    decreases entries,
{
    let ghost at = if o.snapshot {
        depth as nat
    } else {
        0
    };
    let mut i: usize = 0;
    while i < entries.len()
        invariant
            i <= entries@.len(),
            o.snapshot ==> depth <= SNAPSHOT_DEPTH,
            at == if o.snapshot {
                depth as nat
            } else {
                0
            },
            acc.holds(entries_found(f, entries@, i as int, at, o.view())),
        decreases entries@.len() - i,
    {
        let e: &Entry = &entries[i];
        let ghost g = entries_found(f, entries@, i as int, at, o.view());
        let ghost more = entry_found(g, *e, at, o.view());
        if !e.reparse {
            if e.kind == Kind::Dir {
                if o.recurse && (!o.snapshot || depth < SNAPSHOT_DEPTH) {
                    match &e.children {
                        Some(c) => {
                            let below: usize = if o.snapshot {
                                depth + 1
                            } else {
                                0
                            };
                            walk_fk(c, below, o, acc, Ghost(g));
                            proof {
                                if !o.snapshot {
                                    lemma_depth_free(g, c@, c@.len() as int, 0, 1, o.view());
                                }
                            }
                        },
                        None => {},
                    }
                }
            } else if e.kind == Kind::File {
                walk_fk_file(e, o, acc, Ghost(g));
            }
        }
        assert(acc.holds(more));
        i += 1;
    }
}

/// Without a snapshot the depth does not matter.
proof fn lemma_depth_free(f: Found, entries: Seq<Entry>, n: int, a: nat, b: nat, o: Opts)
    requires
        !o.snapshot,
    ensures
        entries_found(f, entries, n, a, o) == entries_found(f, entries, n, b, o),
    decreases entries, n,
{
    if 0 < n <= entries.len() {
        lemma_depth_free(f, entries, n - 1, a, b, o);
        lemma_depth_free_entry(
            entries_found(f, entries, n - 1, a, o),
            entries[n - 1],
            a,
            b,
            o,
        );
    }
}

proof fn lemma_depth_free_entry(f: Found, e: Entry, a: nat, b: nat, o: Opts)
    requires
        !o.snapshot,
    ensures
        entry_found(f, e, a, o) == entry_found(f, e, b, o),
    decreases e, 0int,
{
    if !e.reparse && e.kind == Kind::Dir && o.recurse {
        match e.children {
            Some(c) => lemma_depth_free(f, c@, c@.len() as int, a + 1, b + 1, o),
            None => {},
        }
    }
}

// ------------------------------------------------------ the file keys of a rule

/// The directories and the files that the first `n` exclude keys leave out.
pub open spec fn excludes(keys: Seq<JsonV>, n: int, w: World) -> (Seq<Seq<char>>, Seq<Seq<char>>)
    decreases n,
{
    if n <= 0 {
        (Seq::empty(), Seq::empty())
    } else {
        let before = excludes(keys, n - 1, w);
        let x = keys[n - 1];
        if text_member(x, "type"@) == Some("reg"@) {
            before
        } else {
            match text_member(x, "path"@) {
                None => before,
                Some(p) => {
                    let low = lowercase(without_trailing(expanded(p, w.env), '\\', '\\'));
                    if low.len() == 0 {
                        before
                    } else if text_member(x, "type"@) == Some("dir"@) {
                        (before.0.push(low), before.1)
                    } else {
                        (before.0, before.1.push(low))
                    }
                },
            }
        }
    }
}

/// Whether one of the first `n` file keys stays out of subdirectories.
pub open spec fn some_flat(keys: Seq<JsonV>, n: int) -> bool {
    exists|k: int|
        0 <= k < n && #[trigger] member(keys[k], "recurse"@) == Some(JsonV::Bool(false))
}

/// The array of a member, empty where there is none.
pub open spec fn array_or_empty(v: JsonV, key: Seq<char>) -> Seq<JsonV> {
    match array_member(v, key) {
        Some(a) => a,
        None => Seq::empty(),
    }
}

/// Whether a rule asks for files to be counted once.
pub open spec fn is_snapshot(rule: JsonV) -> bool {
    let keys = array_or_empty(rule, "fileKeys"@);
    count_member(rule, "restartProcesses"@) > 0 || count_member(rule, "excludeKeys"@) > 0
        || some_flat(keys, keys.len() as int)
}

/// The options of a file key of a rule.
pub open spec fn opts_of(rule: JsonV, key: JsonV, w: World) -> Opts {
    let pattern = match text_member(key, "pattern"@) {
        Some(p) => p,
        None => "*"@,
    };
    let ex = array_or_empty(rule, "excludeKeys"@);
    Opts {
        all: is_all(pattern),
        pattern,
        recurse: member(key, "recurse"@) != Some(JsonV::Bool(false)),
        snapshot: is_snapshot(rule),
        skip_lock: count_member(rule, "restartProcesses"@) > 0,
        excl_dirs: excludes(ex, ex.len() as int, w).0,
        excl_files: excludes(ex, ex.len() as int, w).1,
    }
}

/// What the first `n` directories of a file key add.
pub open spec fn dirs_found(f: Found, dirs: Seq<Seq<char>>, n: int, w: World, o: Opts) -> Found
    decreases n,
{
    if n <= 0 {
        f
    } else {
        let before = dirs_found(f, dirs, n - 1, w, o);
        let list = w.listing(dirs[n - 1]);
        entries_found(before, list, list.len() as int, 0, o)
    }
}

/// What a file key adds; a key without a path adds nothing.
pub open spec fn key_found(f: Found, rule: JsonV, key: JsonV, w: World) -> Found {
    match text_member(key, "path"@) {
        None => f,
        Some(p) => if p.len() == 0 {
            f
        } else {
            let dirs = glob_dirs(p, true, w);
            dirs_found(f, dirs, dirs.len() as int, w, opts_of(rule, key, w))
        },
    }
}

/// What the first `n` file keys of a rule add.
pub open spec fn keys_found(f: Found, rule: JsonV, keys: Seq<JsonV>, n: int, w: World) -> Found
    decreases n,
{
    if n <= 0 {
        f
    } else {
        key_found(keys_found(f, rule, keys, n - 1, w), rule, keys[n - 1], w)
    }
}

/// What a rule's file keys find, where the scan has planned `rows` files before.
pub open spec fn rule_found(rule: JsonV, rows: nat, w: World) -> Found {
    let none = Found {
        seen: Set::empty(),
        files: Seq::empty(),
        size: 0,
        locked: 0,
        rows,
        truncated: false,
    };
    let keys = array_or_empty(rule, "fileKeys"@);
    keys_found(none, rule, keys, keys.len() as int, w)
}

fn read_excludes(rule: &Json, world: &World) -> (out: (Vec<String>, Vec<String>))
    ensures
        ({
            let ex = array_or_empty(rule.view(), "excludeKeys"@);
            texts(out.0@) == excludes(ex, ex.len() as int, *world).0 && texts(out.1@) == excludes(
                ex,
                ex.len() as int,
                *world,
            ).1
        }),
{
    let mut dirs: Vec<String> = Vec::new();
    let mut files: Vec<String> = Vec::new();
    assert(texts(dirs@) =~= Seq::empty());
    assert(texts(files@) =~= Seq::empty());
    match rule.array("excludeKeys") {
        None => {},
        Some(arr) => {
            let mut i: usize = 0;
            while i < arr.len()
                invariant
                    i <= arr@.len(),
                    texts(dirs@) == excludes(values(arr@), i as int, *world).0,
                    texts(files@) == excludes(values(arr@), i as int, *world).1,
                decreases arr@.len() - i,
            {
                let x: &Json = &arr[i];
                assert(values(arr@)[i as int] == x.view());
                let ty: Option<&str> = x.text("type");
                let is_reg: bool = match ty {
                    Some(t) => same(t, "reg"),
                    None => false,
                };
                let is_dir: bool = match ty {
                    Some(t) => same(t, "dir"),
                    None => false,
                };
                if !is_reg {
                    match x.text("path") {
                        None => {},
                        Some(p) => {
                            let full: String = expand_env_path(p, &world.env);
                            let low: String = trim_trailing(
                                full.as_str(),
                                '\\',
                                '\\',
                            ).to_lowercase();
                            if low.as_str().unicode_len() > 0 {
                                if is_dir {
                                    proof {
                                        crate::text::lemma_texts_push(dirs@, low);
                                    }
                                    dirs.push(low);
                                } else {
                                    proof {
                                        crate::text::lemma_texts_push(files@, low);
                                    }
                                    files.push(low);
                                }
                            }
                        },
                    }
                }
                i += 1;
            }
        },
    }
    (dirs, files)
}

fn has_flat_key(rule: &Json) -> (out: bool)
    ensures
        ({
            let keys = array_or_empty(rule.view(), "fileKeys"@);
            out == some_flat(keys, keys.len() as int)
        }),
{
    match rule.array("fileKeys") {
        None => false,
        Some(arr) => {
            let mut i: usize = 0;
            while i < arr.len()
                invariant
                    i <= arr@.len(),
                    array_member(rule.view(), "fileKeys"@) == Some(values(arr@)),
                    !some_flat(values(arr@), i as int),
                decreases arr@.len() - i,
            {
                assert(values(arr@)[i as int] == arr@[i as int].view());
                if arr[i].is_false("recurse") {
                    assert(member(values(arr@)[i as int], "recurse"@) == Some(JsonV::Bool(false)));
                    assert(some_flat(values(arr@), arr@.len() as int));
                    return true;
                }
                i += 1;
            }
            false
        },
    }
}

/// What a rule's file keys found.
#[derive(Debug)]
pub struct FkResult {
    pub total_size: u64,
    pub locked: u64,
    pub files: Vec<(String, u64)>,
    pub truncated: bool,
}

/// Looks for the files that a rule's file keys name, and counts those planned
/// into `global_rows`.
pub fn get_file_key_deletable(rule: &Json, global_rows: &mut usize, world: &World) -> (out:
    FkResult)
    requires
        *old(global_rows) <= PLAN_CAP_TOTAL,
    ensures
        ({
            let f = rule_found(rule.view(), *old(global_rows) as nat, *world);
            &&& rows(out.files@) == f.files
            &&& out.total_size == cap64(f.size)
            &&& out.locked == cap64(f.locked)
            &&& out.truncated == f.truncated
            &&& *final(global_rows) == f.rows
            &&& *final(global_rows) <= PLAN_CAP_TOTAL
        }),
{
    let skip_lock: bool = rule.count("restartProcesses") > 0;
    let snapshot: bool = skip_lock || rule.count("excludeKeys") > 0 || has_flat_key(rule);
    let (excl_dirs, excl_files): (Vec<String>, Vec<String>) = read_excludes(rule, world);
    let ghost ex = array_or_empty(rule.view(), "excludeKeys"@);
    let mut acc: FkAcc = FkAcc {
        seen: StringHashSet::new(),
        files: Vec::new(),
        total_size: 0,
        locked: 0,
        global_rows: *global_rows,
        truncated: false,
    };
    let ghost none = Found {
        seen: Set::empty(),
        files: Seq::empty(),
        size: 0,
        locked: 0,
        rows: *global_rows as nat,
        truncated: false,
    };
    assert(acc.holds(none)) by {
        assert(rows(acc.files@) =~= Seq::empty());
    }
    match rule.array("fileKeys") {
        None => {},
        Some(arr) => {
            let mut i: usize = 0;
            while i < arr.len()
                invariant
                    i <= arr@.len(),
                    acc.holds(keys_found(none, rule.view(), values(arr@), i as int, *world)),
                    skip_lock == (count_member(rule.view(), "restartProcesses"@) > 0),
                    snapshot == is_snapshot(rule.view()),
                    ex == array_or_empty(rule.view(), "excludeKeys"@),
                    texts(excl_dirs@) == excludes(ex, ex.len() as int, *world).0,
                    texts(excl_files@) == excludes(ex, ex.len() as int, *world).1,
                decreases arr@.len() - i,
            {
                let key: &Json = &arr[i];
                assert(values(arr@)[i as int] == key.view());
                let ghost g = keys_found(none, rule.view(), values(arr@), i as int, *world);
                match key.text("path") {
                    None => {},
                    Some(p) => {
                        if p.unicode_len() > 0 {
                            let pattern: &str = match key.text("pattern") {
                                Some(t) => t,
                                None => "*",
                            };
                            let o: FkOpts = FkOpts {
                                all: pattern.unicode_len() == 0 || same(pattern, "*"),
                                pattern: pattern.to_owned(),
                                recurse: !key.is_false("recurse"),
                                snapshot,
                                skip_lock,
                                excl_dirs: crate::text::copy_list(&excl_dirs),
                                excl_files: crate::text::copy_list(&excl_files),
                            };
                            assert(o.view() == opts_of(rule.view(), key.view(), *world));
                            let dirs: Vec<String> = expand_glob_dirs(p, true, world);
                            let mut k: usize = 0;
                            while k < dirs.len()
                                invariant
                                    k <= dirs@.len(),
                                    acc.holds(
                                        dirs_found(g, texts(dirs@), k as int, *world, o.view()),
                                    ),
                                decreases dirs@.len() - k,
                            {
                                let ghost h = dirs_found(g, texts(dirs@), k as int, *world, o.view());
                                match world.find(dirs[k].as_str()) {
                                    Some(e) => match &e.children {
                                        Some(c) => {
                                            walk_fk(c, 0, &o, &mut acc, Ghost(h));
                                        },
                                        None => {},
                                    },
                                    None => {},
                                }
                                k += 1;
                            }
                        }
                    },
                }
                i += 1;
            }
        },
    }
    *global_rows = acc.global_rows;
    FkResult {
        total_size: acc.total_size,
        locked: acc.locked,
        files: acc.files,
        truncated: acc.truncated,
    }
}

// ------------------------------------------------------------------------ laws

/// Whether the limits of a plan are kept, and no more files are planned than
/// different paths were met.
pub open spec fn within_limits(f: Found) -> bool {
    f.files.len() <= PLAN_CAP_PER_ITEM && f.rows <= PLAN_CAP_TOTAL && f.seen.finite()
        && f.files.len() <= f.seen.len()
}

proof fn lemma_file_within(f: Found, e: Entry, o: Opts)
    requires
        within_limits(f),
    ensures
        within_limits(file_found(f, e, o)),
{
}

proof fn lemma_entry_within(f: Found, e: Entry, depth: nat, o: Opts)
    requires
        within_limits(f),
    ensures
        within_limits(entry_found(f, e, depth, o)),
    decreases e, 0int,
{
    if !e.reparse && e.kind == Kind::File {
        lemma_file_within(f, e, o);
    } else if !e.reparse && e.kind == Kind::Dir {
        match e.children {
            Some(c) => lemma_entries_within(f, c@, c@.len() as int, depth + 1, o),
            None => {},
        }
    }
}

proof fn lemma_entries_within(f: Found, entries: Seq<Entry>, n: int, depth: nat, o: Opts)
    requires
        within_limits(f),
    ensures
        within_limits(entries_found(f, entries, n, depth, o)),
    decreases entries, n,
{
    if 0 < n <= entries.len() {
        lemma_entries_within(f, entries, n - 1, depth, o);
        lemma_entry_within(
            entries_found(f, entries, n - 1, depth, o),
            entries[n - 1],
            depth,
            o,
        );
    }
}

proof fn lemma_dirs_within(f: Found, dirs: Seq<Seq<char>>, n: int, w: World, o: Opts)
    requires
        within_limits(f),
    ensures
        within_limits(dirs_found(f, dirs, n, w, o)),
    decreases n,
{
    if n > 0 {
        lemma_dirs_within(f, dirs, n - 1, w, o);
        let list = w.listing(dirs[n - 1]);
        lemma_entries_within(dirs_found(f, dirs, n - 1, w, o), list, list.len() as int, 0, o);
    }
}

proof fn lemma_keys_within(f: Found, rule: JsonV, keys: Seq<JsonV>, n: int, w: World)
    requires
        within_limits(f),
    ensures
        within_limits(keys_found(f, rule, keys, n, w)),
    decreases n,
{
    if n > 0 {
        lemma_keys_within(f, rule, keys, n - 1, w);
        match text_member(keys[n - 1], "path"@) {
            Some(p) => {
                let dirs = glob_dirs(p, true, w);
                lemma_dirs_within(
                    keys_found(f, rule, keys, n - 1, w),
                    dirs,
                    dirs.len() as int,
                    w,
                    opts_of(rule, keys[n - 1], w),
                );
            },
            None => {},
        }
    }
}

/// Whatever a rule names and whatever is on disk, the plan of one item and the
/// plan of the whole scan stay within their limits, and no path is planned
/// twice.
pub proof fn law_plan_within_limits(rule: JsonV, rows: nat, w: World)
    requires
        rows <= PLAN_CAP_TOTAL,
    ensures
        within_limits(rule_found(rule, rows, w)),
{
    let none = Found {
        seen: Set::empty(),
        files: Seq::empty(),
        size: 0,
        locked: 0,
        rows,
        truncated: false,
    };
    let keys = array_or_empty(rule, "fileKeys"@);
    lemma_keys_within(none, rule, keys, keys.len() as int, w);
}

/// A directory that cannot be listed is never reported as an empty one: nothing is
/// measured there, and the outcome says so.
pub proof fn law_unlisted_is_unknown(w: World, path: Seq<char>)
    requires
        w.has_dir(path),
        (w.at(path)->0).children is None,
    ensures
        !stats_at(w, path).ok,
        !stats_at(w, path).missing,
{
}

} // verus!
