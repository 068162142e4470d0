//! Walks over trees of directories: which entries a walk meets, and what the scans make of
//! them.

use crate::deletable::{deletable_at, files_in, files_of, stats_at, total_size};
use crate::empty::{collected, collected_in, is_ignored, Walk};
use crate::scan::{files_among, files_below, size_in, size_of};
use crate::wildcard::name_matches;
use crate::world::{Entry, Kind, World};
use vstd::prelude::*;

verus! {

// -------------------------------------------------------------------------- ways

/// The entry that a way leads to: from a list to one of its entries, and on into what lies
/// below it.
pub open spec fn along(list: Seq<Entry>, way: Seq<int>) -> Option<Entry>
    decreases way.len(),
{
    if way.len() == 0 || !(0 <= way[0] < list.len()) {
        None
    } else if way.len() == 1 {
        Some(list[way[0]])
    } else {
        match list[way[0]].children {
            Some(c) => along(c@, way.skip(1)),
            None => None,
        }
    }
}

/// Whether every entry that a way goes through may be entered.
pub open spec fn passes(list: Seq<Entry>, way: Seq<int>, into: spec_fn(Entry) -> bool) -> bool
    decreases way.len(),
{
    way.len() <= 1 || (0 <= way[0] < list.len() && into(list[way[0]]) && (match list[way[0]].children {
        Some(c) => passes(c@, way.skip(1), into),
        None => false,
    }))
}

/// A step before each of some ways.
pub open spec fn after(i: int, ways: Seq<Seq<int>>) -> Seq<Seq<int>> {
    Seq::new(ways.len(), |k: int| seq![i] + ways[k])
}

/// The ways to all entries that a walk over the first `n` of a list meets.
pub open spec fn ways(list: Seq<Entry>, n: int, into: spec_fn(Entry) -> bool) -> Seq<Seq<int>>
    decreases list, n,
{
    if n <= 0 || n > list.len() {
        Seq::empty()
    } else {
        ways(list, n - 1, into).push(seq![n - 1]) + after(n - 1, ways_below(list[n - 1], into))
    }
}

/// The ways to all entries below one.
pub open spec fn ways_below(e: Entry, into: spec_fn(Entry) -> bool) -> Seq<Seq<int>>
    decreases e, 0int,
{
    if into(e) {
        match e.children {
            Some(c) => ways(c@, c@.len() as int, into),
            None => Seq::empty(),
        }
    } else {
        Seq::empty()
    }
}

/// The entries that a walk over the first `n` of a list meets.
pub open spec fn met(list: Seq<Entry>, n: int, into: spec_fn(Entry) -> bool) -> Seq<Entry>
    decreases list, n,
{
    if n <= 0 || n > list.len() {
        Seq::empty()
    } else {
        met(list, n - 1, into).push(list[n - 1]) + met_below(list[n - 1], into)
    }
}

/// The entries that a walk meets below one.
pub open spec fn met_below(e: Entry, into: spec_fn(Entry) -> bool) -> Seq<Entry>
    decreases e, 0int,
{
    if into(e) {
        match e.children {
            Some(c) => met(c@, c@.len() as int, into),
            None => Seq::empty(),
        }
    } else {
        Seq::empty()
    }
}

/// Whether some ways are the ways to all entries that a walk meets, each once, in order.
pub open spec fn all_ways(
    list: Seq<Entry>,
    n: int,
    into: spec_fn(Entry) -> bool,
    w: Seq<Seq<int>>,
) -> bool {
    &&& w.no_duplicates()
    &&& w.len() == met(list, n, into).len()
    &&& forall|k: int|
        0 <= k < w.len() ==> (#[trigger] w[k]).len() > 0 && 0 <= w[k][0] < n && passes(
            list,
            w[k],
            into,
        ) && along(list, w[k]) == Some(met(list, n, into)[k])
    &&& forall|way: Seq<int>|
        #![trigger along(list, way)]
        way.len() > 0 && way[0] < n && along(list, way) is Some && passes(list, way, into)
            ==> w.contains(way)
}

/// A walk meets every entry that a way leads to through what may be entered, once, and
/// nothing else.
pub proof fn law_walk_meets_all(list: Seq<Entry>, n: int, into: spec_fn(Entry) -> bool)
    requires
        0 <= n <= list.len(),
    ensures
        all_ways(list, n, into, ways(list, n, into)),
    decreases list, n,
{
    let w = ways(list, n, into);
    let m = met(list, n, into);
    if n > 0 {
        law_walk_meets_all(list, n - 1, into);
        let e = list[n - 1];
        let w0 = ways(list, n - 1, into);
        let m0 = met(list, n - 1, into);
        let below = ways_below(e, into);
        let mb = met_below(e, into);
        if into(e) && e.children is Some {
            let c = e.children->0;
            law_walk_meets_all(c@, c@.len() as int, into);
        }
        let tail = after(n - 1, below);
        assert(w =~= w0.push(seq![n - 1]) + tail);
        assert(m =~= m0.push(e) + mb);
        assert(below.len() == mb.len());
        assert forall|k: int| 0 <= k < w.len() implies (#[trigger] w[k]).len() > 0 && 0 <= w[k][0]
            < n && passes(list, w[k], into) && along(list, w[k]) == Some(m[k]) by {
            if k < w0.len() {
                assert(w[k] == w0[k]);
            } else if k == w0.len() {
                assert(w[k] == seq![n - 1]);
            } else {
                let j = k - w0.len() - 1;
                assert(w[k] == seq![n - 1] + below[j]);
                assert(w[k].skip(1) =~= below[j]);
            }
        }
        assert forall|a: int, b: int| 0 <= a < w.len() && 0 <= b < w.len() && a != b implies w[a]
            != w[b] by {
            let p = if a < b {
                a
            } else {
                b
            };
            let q = if a < b {
                b
            } else {
                a
            };
            if p < w0.len() {
                assert(w[p] == w0[p]);
                if q < w0.len() {
                    assert(w[q] == w0[q]);
                } else {
                    assert(w[p][0] < n - 1);
                    assert(w[q][0] == n - 1);
                }
            } else if p == w0.len() {
                let j = q - w0.len() - 1;
                assert(w[q] == seq![n - 1] + below[j]);
                assert(below[j].len() > 0);
            } else {
                let i = p - w0.len() - 1;
                let j = q - w0.len() - 1;
                assert((seq![n - 1] + below[i]).skip(1) =~= below[i]);
                assert((seq![n - 1] + below[j]).skip(1) =~= below[j]);
                assert(below[i] != below[j]);
            }
        }
        assert forall|way: Seq<int>|
            #![trigger along(list, way)]
            way.len() > 0 && way[0] < n && along(list, way) is Some && passes(
                list,
                way,
                into,
            ) implies w.contains(way) by {
            if way[0] < n - 1 {
                assert(w0.contains(way));
                let k = choose|k: int| 0 <= k < w0.len() && w0[k] == way;
                assert(w[k] == way);
            } else if way.len() == 1 {
                assert(way =~= seq![n - 1]);
                assert(w[w0.len() as int] == way);
            } else {
                let c = e.children->0;
                let rest = way.skip(1);
                assert(along(c@, rest) is Some);
                assert(rest.len() > 0 && rest[0] < c@.len());
                assert(below.contains(rest));
                let j = choose|j: int| 0 <= j < below.len() && below[j] == rest;
                assert(seq![n - 1] + rest =~= way);
                assert(w[w0.len() + 1 + j] == way);
            }
        }
    } else {
        assert(w =~= Seq::empty());
        assert(m =~= Seq::empty());
    }
}

// ----------------------------------------------------------------------- what is met

/// What a filter keeps of two sequences, mapped.
proof fn lemma_kept<B>(a: Seq<Entry>, b: Seq<Entry>, p: spec_fn(Entry) -> bool, f: spec_fn(Entry) -> B)
    ensures
        (a + b).filter(p).map_values(f) =~= a.filter(p).map_values(f) + b.filter(p).map_values(f),
        (a + b).filter(p).len() == a.filter(p).len() + b.filter(p).len(),
{
    Seq::filter_distributes_over_add(a, b, p);
}

proof fn lemma_kept_one<B>(a: Seq<Entry>, e: Entry, p: spec_fn(Entry) -> bool, f: spec_fn(Entry) -> B)
    ensures
        a.push(e).filter(p).map_values(f) =~= a.filter(p).map_values(f) + (if p(e) {
            seq![f(e)]
        } else {
            Seq::empty()
        }),
        a.push(e).filter(p).len() == a.filter(p).len() + (if p(e) {
            1nat
        } else {
            0
        }),
{
    a.lemma_filter_push(e, p);
}

/// The path and the size of an entry.
pub open spec fn row() -> spec_fn(Entry) -> (Seq<char>, u64) {
    |e: Entry| (e.path@, e.size)
}

/// The directories that are entered: no reparse point among them.
pub open spec fn plain_dir() -> spec_fn(Entry) -> bool {
    |e: Entry| e.kind == Kind::Dir && !e.reparse
}

/// The files that are asked for: no reparse point among them.
pub open spec fn asked_file(all: bool, pattern: Seq<char>) -> spec_fn(Entry) -> bool {
    |e: Entry| e.kind == Kind::File && !e.reparse && (all || name_matches(e.name@, pattern))
}

/// Those of them that could be opened alone.
pub open spec fn free_file(all: bool, pattern: Seq<char>) -> spec_fn(Entry) -> bool {
    |e: Entry| asked_file(all, pattern)(e) && e.openable
}

/// Those of them that could not.
pub open spec fn held_file(all: bool, pattern: Seq<char>) -> spec_fn(Entry) -> bool {
    |e: Entry| asked_file(all, pattern)(e) && !e.openable
}

/// Below a directory exactly the files that are asked for and could be opened alone can be
/// deleted; all that are asked for are counted, and what is counted beyond what can be deleted
/// could not be opened.
pub proof fn law_deletable_files(list: Seq<Entry>, n: int, all: bool, pattern: Seq<char>)
    requires
        0 <= n <= list.len(),
    ensures
        ({
            let found = files_in(list, n, all, pattern);
            let m = met(list, n, plain_dir());
            &&& found.0 == m.filter(free_file(all, pattern)).map_values(row())
            &&& found.1 == m.filter(asked_file(all, pattern)).len()
            &&& found.1 - found.0.len() == m.filter(held_file(all, pattern)).len()
        }),
    decreases list, n,
{
    let into = plain_dir();
    let f = row();
    let free = free_file(all, pattern);
    let asked = asked_file(all, pattern);
    let held = held_file(all, pattern);
    if n > 0 {
        let e = list[n - 1];
        law_deletable_files(list, n - 1, all, pattern);
        let m0 = met(list, n - 1, into);
        let mb = met_below(e, into);
        if into(e) && e.children is Some {
            law_deletable_files(e.children->0@, e.children->0@.len() as int, all, pattern);
        }
        lemma_kept(m0.push(e), mb, free, f);
        lemma_kept(m0.push(e), mb, asked, f);
        lemma_kept(m0.push(e), mb, held, f);
        lemma_kept_one(m0, e, free, f);
        lemma_kept_one(m0, e, asked, f);
        lemma_kept_one(m0, e, held, f);
        let more = files_of(e, all, pattern);
        assert(files_in(list, n, all, pattern).0 =~= m0.filter(free).map_values(f) + (if free(e) {
            seq![f(e)]
        } else {
            Seq::empty()
        }) + mb.filter(free).map_values(f));
    } else {
        let m = met(list, n, into);
        assert(m =~= Seq::empty());
        assert(files_in(list, n, all, pattern).0 =~= m.filter(free).map_values(f));
    }
}

/// The sum of some numbers.
pub open spec fn sum(s: Seq<u64>) -> nat
    decreases s.len(),
{
    if s.len() == 0 {
        0
    } else {
        sum(s.drop_last()) + s.last() as nat
    }
}

proof fn lemma_sum_add(a: Seq<u64>, b: Seq<u64>)
    ensures
        sum(a + b) == sum(a) + sum(b),
    decreases b.len(),
{
    if b.len() == 0 {
        assert(a + b =~= a);
    } else {
        assert((a + b).drop_last() =~= a + b.drop_last());
        lemma_sum_add(a, b.drop_last());
    }
}

/// The size of an entry.
pub open spec fn bytes() -> spec_fn(Entry) -> u64 {
    |e: Entry| e.size
}

/// Any file.
pub open spec fn any_file() -> spec_fn(Entry) -> bool {
    |e: Entry| e.kind == Kind::File
}

proof fn lemma_total(files: Seq<(Seq<char>, u64)>, n: int)
    requires
        0 <= n <= files.len(),
    ensures
        total_size(files, n) == sum(Seq::new(n as nat, |i: int| files[i].1)),
    decreases n,
{
    if n > 0 {
        lemma_total(files, n - 1);
        let s = Seq::new(n as nat, |i: int| files[i].1);
        assert(s.drop_last() =~= Seq::new((n - 1) as nat, |i: int| files[i].1));
    } else {
        assert(Seq::new(0nat, |i: int| files[i].1) =~= Seq::<u64>::empty());
    }
}

/// What is measured at a directory: the files below it that could be opened alone, what they
/// hold together, and how many could not be opened.
pub proof fn law_stats_of_directory(w: World, path: Seq<char>)
    requires
        path.len() > 0,
        w.at(path) is Some,
        w.at(path)->0.kind == Kind::Dir,
        w.at(path)->0.children is Some,
        met(
            w.at(path)->0.children->0@,
            w.at(path)->0.children->0@.len() as int,
            plain_dir(),
        ).len() <= u64::MAX,
    ensures
        ({
            let c = w.at(path)->0.children->0;
            let m = met(c@, c@.len() as int, plain_dir());
            let free = m.filter(free_file(true, "*"@));
            let held = m.filter(held_file(true, "*"@));
            let s = stats_at(w, path);
            &&& s.ok && !s.missing
            &&& s.nfiles == free.len()
            &&& s.locked == held.len()
            &&& s.size == (if sum(free.map_values(bytes())) <= u64::MAX {
                sum(free.map_values(bytes()))
            } else {
                u64::MAX as nat
            })
        }),
{
    let c = w.at(path)->0.children->0;
    let n = c@.len() as int;
    let m = met(c@, n, plain_dir());
    let free = m.filter(free_file(true, "*"@));
    reveal_strlit("*");
    assert(w.listing(path) == c@);
    law_deletable_files(c@, n, true, "*"@);
    let found = deletable_at(w, path, "*"@);
    m.lemma_filter_len(asked_file(true, "*"@));
    m.lemma_filter_len(free_file(true, "*"@));
    lemma_total(found.0, found.0.len() as int);
    assert(Seq::new(found.0.len(), |i: int| found.0[i].1) =~= free.map_values(bytes()));
}

/// What is measured at a single file: it counts as free or as held, never as both.
pub proof fn law_stats_of_file(w: World, path: Seq<char>)
    requires
        path.len() > 0,
        w.at(path) matches Some(e) && e.kind == Kind::File,
    ensures
        ({
            let e = w.at(path)->0;
            let s = stats_at(w, path);
            &&& s.ok && !s.missing && s.nfiles + s.locked == 1
            &&& (s.nfiles == 1) == e.openable
            &&& s.size == (if e.openable {
                e.size
            } else {
                0
            })
        }),
{
}

/// A path that is not there, and one that cannot be listed, are told apart from an empty one.
pub proof fn law_stats_of_nothing(w: World, path: Seq<char>)
    requires
        path.len() > 0,
    ensures
        w.at(path) is None ==> stats_at(w, path).ok && stats_at(w, path).missing,
        (w.at(path) matches Some(e) && e.kind == Kind::Dir && e.children is None) ==> !stats_at(
            w,
            path,
        ).ok,
        !stats_at(w, path).ok || stats_at(w, path).missing ==> stats_at(w, path).size == 0
            && stats_at(w, path).nfiles == 0 && stats_at(w, path).locked == 0,
{
}

/// The size of a directory is what all files below it hold together, without those behind a
/// reparse point.
pub proof fn law_size_of_tree(list: Seq<Entry>, n: int)
    requires
        0 <= n <= list.len(),
    ensures
        size_in(list, n) == sum(
            met(list, n, plain_dir()).filter(any_file()).map_values(bytes()),
        ),
    decreases list, n,
{
    let into = plain_dir();
    let p = any_file();
    let f = bytes();
    if n > 0 {
        let e = list[n - 1];
        law_size_of_tree(list, n - 1);
        let more = size_of(e);
        let m0 = met(list, n - 1, into);
        let mb = met_below(e, into);
        if into(e) && e.children is Some {
            law_size_of_tree(e.children->0@, e.children->0@.len() as int);
        }
        lemma_kept(m0.push(e), mb, p, f);
        lemma_kept_one(m0, e, p, f);
        let one = if p(e) {
            seq![f(e)]
        } else {
            Seq::empty()
        };
        lemma_sum_add(m0.filter(p).map_values(f) + one, mb.filter(p).map_values(f));
        lemma_sum_add(m0.filter(p).map_values(f), one);
        reveal_with_fuel(sum, 2);
        assert(sum(one) == (if p(e) {
            e.size as nat
        } else {
            0
        })) by {
            if p(e) {
                assert(one.drop_last() =~= Seq::empty());
            }
        }
        assert(met(list, n, into) == m0.push(e) + mb);
        assert(mb.filter(p).map_values(f) =~= Seq::<u64>::empty() || (into(e) && e.children is Some))
            by {
            if !(into(e) && e.children is Some) {
                assert(mb =~= Seq::empty());
                mb.lemma_filter_len(p);
            }
        }
    } else {
        assert(met(list, n, into) =~= Seq::empty());
        assert(met(list, n, into).filter(p).map_values(f) =~= Seq::<u64>::empty());
    }
}

/// The files that a scan for large ones looks at are all files below, each once.
pub proof fn law_files_of_tree(list: Seq<Entry>, n: int)
    requires
        0 <= n <= list.len(),
    ensures
        files_among(list, n, true) == met(list, n, plain_dir()).filter(any_file()).map_values(
            row(),
        ),
    decreases list, n,
{
    let into = plain_dir();
    let p = any_file();
    let f = row();
    if n > 0 {
        let e = list[n - 1];
        law_files_of_tree(list, n - 1);
        let more = files_below(e, true);
        let m0 = met(list, n - 1, into);
        let mb = met_below(e, into);
        if into(e) && e.children is Some {
            law_files_of_tree(e.children->0@, e.children->0@.len() as int);
        } else {
            assert(mb =~= Seq::empty());
            mb.lemma_filter_len(p);
            assert(mb.filter(p).map_values(f) =~= Seq::empty());
        }
        lemma_kept(m0.push(e), mb, p, f);
        lemma_kept_one(m0, e, p, f);
        assert(files_among(list, n, true) =~= m0.filter(p).map_values(f) + (if p(e) {
            seq![f(e)]
        } else {
            Seq::empty()
        }) + mb.filter(p).map_values(f));
    } else {
        assert(met(list, n, into) =~= Seq::empty());
        assert(files_among(list, n, true) =~= met(list, n, into).filter(p).map_values(f));
    }
}

// ---------------------------------------------------------------------- what is empty

/// A directory that a search for empty ones goes into.
pub open spec fn searched(ignore: Set<Seq<char>>) -> spec_fn(Entry) -> bool {
    |e: Entry| e.kind == Kind::Dir && !e.reparse && !is_ignored(e.path@, ignore)
}

/// Whether all that ways through the first `n` of a list lead to are directories that can be
/// listed, and none of them is to be passed over.
pub open spec fn only_dirs(list: Seq<Entry>, n: int, ignore: Set<Seq<char>>) -> bool {
    forall|way: Seq<int>|
        #![trigger along(list, way)]
        way.len() > 0 && way[0] < n && along(list, way) is Some ==> searched(ignore)(
            along(list, way)->0,
        ) && along(list, way)->0.children is Some
}

/// Whether a directory holds nothing but directories, however deep.
pub open spec fn bare_tree(d: Entry, ignore: Set<Seq<char>>) -> bool {
    !is_ignored(d.path@, ignore) && d.children is Some && only_dirs(
        d.children->0@,
        d.children->0@.len() as int,
        ignore,
    )
}

proof fn lemma_only_dirs(list: Seq<Entry>, n: int, ignore: Set<Seq<char>>)
    requires
        0 < n <= list.len(),
    ensures
        only_dirs(list, n, ignore) == (only_dirs(list, n - 1, ignore) && list[n - 1].kind
            == Kind::Dir && !list[n - 1].reparse && bare_tree(list[n - 1], ignore)),
{
    let e = list[n - 1];
    if only_dirs(list, n, ignore) {
        let one = seq![n - 1];
        assert(along(list, one) == Some(e));
        let c = e.children->0;
        assert forall|way: Seq<int>|
            #![trigger along(c@, way)]
            way.len() > 0 && way[0] < c@.len() && along(c@, way) is Some implies searched(ignore)(
            along(c@, way)->0,
        ) && along(c@, way)->0.children is Some by {
            let longer = seq![n - 1] + way;
            assert(longer.skip(1) =~= way);
            assert(along(list, longer) == along(c@, way));
        }
    } else {
        let way = choose|way: Seq<int>|
            #![trigger along(list, way)]
            way.len() > 0 && way[0] < n && along(list, way) is Some && !(searched(ignore)(
                along(list, way)->0,
            ) && along(list, way)->0.children is Some);
        if only_dirs(list, n - 1, ignore) {
            assert(way[0] == n - 1);
            if way.len() > 1 && e.kind == Kind::Dir && !e.reparse && bare_tree(e, ignore) {
                let c = e.children->0;
                assert(along(c@, way.skip(1)) is Some);
            }
        }
    }
}

/// A file of no size below some entries.
pub open spec fn is_empty_file(list: Seq<Entry>, n: int, way: Seq<int>, p: Seq<char>) -> bool {
    way.len() > 0 && way[0] < n && (along(list, way) matches Some(e) && e.kind == Kind::File && e.size
        == 0 && e.path@ == p)
}

/// A directory below some entries that holds nothing but directories.
pub open spec fn is_empty_dir(
    list: Seq<Entry>,
    n: int,
    way: Seq<int>,
    ignore: Set<Seq<char>>,
    p: Seq<char>,
) -> bool {
    way.len() > 0 && way[0] < n && (along(list, way) matches Some(e) && e.kind == Kind::Dir
        && !e.reparse && bare_tree(e, ignore) && e.path@ == p)
}

/// Whether a path is that of a file of no size below some entries.
pub open spec fn file_there(list: Seq<Entry>, n: int, p: Seq<char>) -> bool {
    exists|way: Seq<int>| is_empty_file(list, n, way, p)
}

/// Whether it can be reached through directories that are searched.
pub open spec fn file_reached(list: Seq<Entry>, n: int, ignore: Set<Seq<char>>, p: Seq<char>) -> bool {
    exists|way: Seq<int>| is_empty_file(list, n, way, p) && passes(list, way, searched(ignore))
}

/// Whether a path is that of a directory below some entries that holds nothing but
/// directories.
pub open spec fn dir_there(list: Seq<Entry>, n: int, ignore: Set<Seq<char>>, p: Seq<char>) -> bool {
    exists|way: Seq<int>| is_empty_dir(list, n, way, ignore, p)
}

/// Whether it can be reached through directories that are searched.
pub open spec fn dir_reached(list: Seq<Entry>, n: int, ignore: Set<Seq<char>>, p: Seq<char>) -> bool {
    exists|way: Seq<int>|
        is_empty_dir(list, n, way, ignore, p) && passes(list, way, searched(ignore))
}

/// What lies directly in an entry.
pub open spec fn inside_of(e: Entry) -> Seq<Entry> {
    match e.children {
        Some(c) => c@,
        None => Seq::empty(),
    }
}

/// The last entry of a list, and what lies below it.
proof fn lemma_there(list: Seq<Entry>, n: int, ignore: Set<Seq<char>>, p: Seq<char>)
    requires
        0 < n <= list.len(),
    ensures
        ({
            let e = list[n - 1];
            let c = inside_of(e);
            let k = c.len() as int;
            let file = e.kind == Kind::File && e.size == 0 && e.path@ == p;
            let dir = e.kind == Kind::Dir && !e.reparse && bare_tree(e, ignore) && e.path@ == p;
            let open = searched(ignore)(e);
            &&& file_there(list, n - 1, p) || file || file_there(c, k, p) ==> file_there(list, n, p)
            &&& dir_there(list, n - 1, ignore, p) || dir || dir_there(c, k, ignore, p) ==> dir_there(
                list,
                n,
                ignore,
                p,
            )
            &&& file_reached(list, n, ignore, p) ==> file_reached(list, n - 1, ignore, p) || file || (
            open && file_reached(c, k, ignore, p))
            &&& dir_reached(list, n, ignore, p) ==> dir_reached(list, n - 1, ignore, p) || dir || (
            open && dir_reached(c, k, ignore, p))
        }),
{
    let e = list[n - 1];
    let c = inside_of(e);
    let k = c.len() as int;
    let m = n - 1;
    let one = seq![n - 1];
    assert(along(list, one) == Some(e));
    assert forall|way: Seq<int>| #[trigger] along(c, way) is Some implies along(list, one + way)
        == along(c, way) by {
        assert((one + way).skip(1) =~= way);
    }
    if file_there(list, m, p) {
        let way = choose|way: Seq<int>| is_empty_file(list, m, way, p);
        assert(is_empty_file(list, n, way, p));
    }
    if e.kind == Kind::File && e.size == 0 && e.path@ == p {
        assert(is_empty_file(list, n, one, p));
    }
    if file_there(c, k, p) {
        let way = choose|way: Seq<int>| is_empty_file(c, k, way, p);
        assert(along(c, way) is Some);
        assert(is_empty_file(list, n, one + way, p));
    }
    if dir_there(list, m, ignore, p) {
        let way = choose|way: Seq<int>| is_empty_dir(list, m, way, ignore, p);
        assert(is_empty_dir(list, n, way, ignore, p));
    }
    if e.kind == Kind::Dir && !e.reparse && bare_tree(e, ignore) && e.path@ == p {
        assert(is_empty_dir(list, n, one, ignore, p));
    }
    if dir_there(c, k, ignore, p) {
        let way = choose|way: Seq<int>| is_empty_dir(c, k, way, ignore, p);
        assert(along(c, way) is Some);
        assert(is_empty_dir(list, n, one + way, ignore, p));
    }
    if file_reached(list, n, ignore, p) {
        let way = choose|way: Seq<int>|
            is_empty_file(list, n, way, p) && passes(list, way, searched(ignore));
        if way[0] < m {
            assert(is_empty_file(list, m, way, p));
            assert(file_reached(list, m, ignore, p));
        } else if way.len() > 1 {
            assert(along(c, way.skip(1)) is Some);
            assert(is_empty_file(c, k, way.skip(1), p));
            assert(passes(c, way.skip(1), searched(ignore)));
            assert(file_reached(c, k, ignore, p));
        }
    }
    if dir_reached(list, n, ignore, p) {
        let way = choose|way: Seq<int>|
            is_empty_dir(list, n, way, ignore, p) && passes(list, way, searched(ignore));
        if way[0] < m {
            assert(is_empty_dir(list, m, way, ignore, p));
            assert(dir_reached(list, m, ignore, p));
        } else if way.len() > 1 {
            assert(along(c, way.skip(1)) is Some);
            assert(is_empty_dir(c, k, way.skip(1), ignore, p));
            assert(passes(c, way.skip(1), searched(ignore)));
            assert(dir_reached(c, k, ignore, p));
        }
    }
}

/// Whether a list was only added to.
pub open spec fn added_to(before: Seq<Seq<char>>, now: Seq<Seq<char>>) -> bool {
    before.len() <= now.len() && forall|k: int| 0 <= k < before.len() ==> now[k] == before[k]
}

/// Whether what a search has kept beyond what was kept before is empty, and nothing empty was
/// left out that the limit left room for.
pub open spec fn kept_right(
    before: Walk,
    now: Walk,
    list: Seq<Entry>,
    n: int,
    ignore: Set<Seq<char>>,
) -> bool {
    &&& added_to(before.kept.files, now.kept.files)
    &&& added_to(before.kept.dirs, now.kept.dirs)
    &&& before.kept.truncated ==> now.kept.truncated
    &&& forall|k: int|
        before.kept.files.len() <= k < now.kept.files.len() ==> file_there(
            list,
            n,
            #[trigger] now.kept.files[k],
        )
    &&& forall|k: int|
        before.kept.dirs.len() <= k < now.kept.dirs.len() ==> dir_there(
            list,
            n,
            ignore,
            #[trigger] now.kept.dirs[k],
        )
    &&& !now.kept.truncated ==> forall|p: Seq<char>| #[trigger]
        file_reached(list, n, ignore, p) ==> now.kept.files.contains(p)
    &&& !now.kept.truncated ==> forall|p: Seq<char>| #[trigger]
        dir_reached(list, n, ignore, p) ==> now.kept.dirs.contains(p)
}

/// The same for what a search has kept of one directory.
pub open spec fn dir_right(w: Walk, now: Walk, d: Entry, ignore: Set<Seq<char>>) -> bool {
    let list = inside_of(d);
    let n = list.len() as int;
    &&& added_to(w.kept.files, now.kept.files)
    &&& added_to(w.kept.dirs, now.kept.dirs)
    &&& w.kept.truncated ==> now.kept.truncated
    &&& forall|k: int|
        w.kept.files.len() <= k < now.kept.files.len() ==> file_there(
            list,
            n,
            #[trigger] now.kept.files[k],
        )
    &&& forall|k: int|
        w.kept.dirs.len() <= k < now.kept.dirs.len() ==> (#[trigger] now.kept.dirs[k] == d.path@
            && bare_tree(d, ignore)) || dir_there(list, n, ignore, now.kept.dirs[k])
    &&& !now.kept.truncated && !is_ignored(d.path@, ignore) ==> forall|p: Seq<char>| #[trigger]
        file_reached(list, n, ignore, p) ==> now.kept.files.contains(p)
    &&& !now.kept.truncated && !is_ignored(d.path@, ignore) ==> forall|p: Seq<char>| #[trigger]
        dir_reached(list, n, ignore, p) ==> now.kept.dirs.contains(p)
    &&& bare_tree(d, ignore) && !now.kept.truncated ==> now.kept.dirs.contains(d.path@)
}

proof fn lemma_added(a: Seq<Seq<char>>, b: Seq<Seq<char>>)
    requires
        added_to(a, b),
    ensures
        forall|x: Seq<char>| a.contains(x) ==> b.contains(x),
{
    assert forall|x: Seq<char>| a.contains(x) implies b.contains(x) by {
        let k = choose|k: int| 0 <= k < a.len() && a[k] == x;
        assert(b[k] == x);
    }
}

/// A search for what is empty goes into the first `n` entries of a list: they count as empty
/// only where they hold nothing but directories, and what is kept is what is empty.
pub proof fn law_empty_is_kept(w: Walk, list: Seq<Entry>, n: int, ignore: Set<Seq<char>>)
    requires
        0 <= n <= list.len(),
    ensures
        collected_in(w, list, n, ignore).0 ==> only_dirs(list, n, ignore),
        only_dirs(list, n, ignore) && !collected_in(w, list, n, ignore).1.kept.truncated
            ==> collected_in(w, list, n, ignore).0,
        kept_right(w, collected_in(w, list, n, ignore).1, list, n, ignore),
    decreases list, n,
{
    let now = collected_in(w, list, n, ignore).1;
    if n > 0 {
        law_empty_is_kept(w, list, n - 1, ignore);
        lemma_only_dirs(list, n, ignore);
        let mid = collected_in(w, list, n - 1, ignore).1;
        let e = list[n - 1];
        let c = inside_of(e);
        if e.kind == Kind::Dir && !e.reparse {
            law_empty_dir_is_kept(mid, e, ignore);
        } else if e.kind == Kind::File && e.size == 0 && !now.kept.truncated {
            assert(now.kept.files[mid.kept.files.len() as int] == e.path@);
        }
        assert(added_to(mid.kept.files, now.kept.files));
        assert(added_to(mid.kept.dirs, now.kept.dirs));
        lemma_added(mid.kept.files, now.kept.files);
        lemma_added(mid.kept.dirs, now.kept.dirs);
        assert forall|k: int| w.kept.files.len() <= k < now.kept.files.len() implies file_there(
            list,
            n,
            #[trigger] now.kept.files[k],
        ) by {
            lemma_there(list, n, ignore, now.kept.files[k]);
            if k < mid.kept.files.len() {
                assert(file_there(list, n - 1, mid.kept.files[k]));
            }
        }
        assert forall|k: int| w.kept.dirs.len() <= k < now.kept.dirs.len() implies dir_there(
            list,
            n,
            ignore,
            #[trigger] now.kept.dirs[k],
        ) by {
            lemma_there(list, n, ignore, now.kept.dirs[k]);
            if k < mid.kept.dirs.len() {
                assert(dir_there(list, n - 1, ignore, mid.kept.dirs[k]));
            }
        }
        if !now.kept.truncated {
            assert(!mid.kept.truncated);
            assert forall|p: Seq<char>| #[trigger]
                file_reached(list, n, ignore, p) implies now.kept.files.contains(p) by {
                lemma_there(list, n, ignore, p);
            }
            assert forall|p: Seq<char>| #[trigger]
                dir_reached(list, n, ignore, p) implies now.kept.dirs.contains(p) by {
                lemma_there(list, n, ignore, p);
            }
        }
    } else {
        assert forall|p: Seq<char>| #[trigger] file_reached(list, n, ignore, p) implies false by {
            let way = choose|way: Seq<int>|
                is_empty_file(list, n, way, p) && passes(list, way, searched(ignore));
            assert(along(list, way) is Some);
        }
        assert forall|p: Seq<char>| #[trigger] dir_reached(list, n, ignore, p) implies false by {
            let way = choose|way: Seq<int>|
                is_empty_dir(list, n, way, ignore, p) && passes(list, way, searched(ignore));
            assert(along(list, way) is Some);
        }
    }
}

/// The same for one directory: it counts as empty only where it holds nothing but
/// directories, and is kept then.
pub proof fn law_empty_dir_is_kept(w: Walk, d: Entry, ignore: Set<Seq<char>>)
    ensures
        collected(w, d, ignore).0 ==> bare_tree(d, ignore),
        bare_tree(d, ignore) && !collected(w, d, ignore).1.kept.truncated ==> collected(
            w,
            d,
            ignore,
        ).0,
        dir_right(w, collected(w, d, ignore).1, d, ignore),
    decreases d, 0int,
{
    let now = collected(w, d, ignore).1;
    let list = inside_of(d);
    let n = list.len() as int;
    if !(w.kept.truncated || is_ignored(d.path@, ignore)) {
        match d.children {
            None => {
                assert forall|p: Seq<char>| #[trigger] file_reached(list, n, ignore, p) implies false by {
                    let way = choose|way: Seq<int>|
                        is_empty_file(list, n, way, p) && passes(list, way, searched(ignore));
                    assert(along(list, way) is Some);
                }
                assert forall|p: Seq<char>| #[trigger] dir_reached(list, n, ignore, p) implies false by {
                    let way = choose|way: Seq<int>|
                        is_empty_dir(list, n, way, ignore, p) && passes(list, way, searched(ignore));
                    assert(along(list, way) is Some);
                }
            },
            Some(c) => {
                law_empty_is_kept(w, list, n, ignore);
                let r = collected_in(w, list, n, ignore);
                assert(now.kept.files == r.1.kept.files);
                assert(added_to(r.1.kept.dirs, now.kept.dirs));
                lemma_added(r.1.kept.dirs, now.kept.dirs);
                if r.0 && !now.kept.truncated {
                    assert(now.kept.dirs[r.1.kept.dirs.len() as int] == d.path@);
                }
                assert forall|k: int| w.kept.dirs.len() <= k < now.kept.dirs.len() implies (
                #[trigger] now.kept.dirs[k] == d.path@ && bare_tree(d, ignore)) || dir_there(
                    list,
                    n,
                    ignore,
                    now.kept.dirs[k],
                ) by {
                    if k < r.1.kept.dirs.len() {
                        assert(dir_there(list, n, ignore, r.1.kept.dirs[k]));
                    }
                }
            },
        }
    }
}

} // verus!
