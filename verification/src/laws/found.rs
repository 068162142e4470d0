//! What the scans for large files and for duplicates find.

use crate::doc_groups::{eligible, sim_exts, FileV};
use crate::duplicates::{
    arranged, content_groups, content_keys, dup_events, dup_extra, empty_events, first_sizes,
    group_sums, name_groups, name_keys, size_sum,
};
use crate::events::{item_event, EventV};
use crate::groups::{carriers, first_with, groups_below, groups_of, key_labels, law_carriers};
use crate::laws::tree::{met, met_below, plain_dir, row};
use crate::order::{is_ranking, law_ranked, law_top_is_largest, ranked, slot, top};
use crate::paths::{extension_of, file_name_of};
use crate::scan::{
    all_tasks, app_dirs, app_report, app_sizes, big_items, big_report, dir_total, labelled,
    large_files, law_tasks_cover_once, root_tasks, size_event, sized_dirs, task_files, tasks_beats,
    tasks_files, walked, walked_dirs, with_batch, Collected,
};
use crate::text::{cap64, dec, lowercase};
use crate::world::{Entry, Kind};
use vstd::multiset::Multiset;
use vstd::prelude::*;

verus! {

// ------------------------------------------------------------------------- collecting

/// The files that are large enough.
pub open spec fn large(min_size: u64) -> spec_fn(Entry) -> bool {
    |e: Entry| e.kind == Kind::File && e.size >= min_size
}

/// The large files that a walk meets below an entry.
pub open spec fn large_below(e: Entry, min_size: u64) -> Multiset<(Seq<char>, u64)> {
    met_below(e, plain_dir()).filter(large(min_size)).map_values(row()).to_multiset()
}

spec fn large_under(list: Seq<Entry>, n: int, min_size: u64) -> Multiset<(Seq<char>, u64)>
    decreases n,
{
    if n <= 0 {
        Multiset::empty()
    } else {
        large_under(list, n - 1, min_size).add(large_below(list[n - 1], min_size))
    }
}

proof fn lemma_large(list: Seq<Entry>, n: int, min_size: u64)
    requires
        0 <= n <= list.len(),
    ensures
        met(list, n, plain_dir()).filter(large(min_size)).map_values(row()).to_multiset()
            == large_files(list, n, min_size).to_multiset().add(large_under(list, n, min_size)),
    decreases n,
{
    broadcast use vstd::seq_lib::group_to_multiset_ensures;

    let p = large(min_size);
    let f = row();
    let m = met(list, n, plain_dir());
    if n > 0 {
        lemma_large(list, n - 1, min_size);
        let e = list[n - 1];
        let m0 = met(list, n - 1, plain_dir());
        let mb = met_below(e, plain_dir());
        Seq::filter_distributes_over_add(m0.push(e), mb, p);
        m0.lemma_filter_push(e, p);
        let a = m0.push(e).filter(p).map_values(f);
        let b = mb.filter(p).map_values(f);
        assert(m.filter(p).map_values(f) =~= a + b);
        vstd::seq_lib::lemma_multiset_commutative(a, b);
        if p(e) {
            assert(a =~= m0.filter(p).map_values(f).push(f(e)));
        } else {
            assert(a =~= m0.filter(p).map_values(f));
        }
        assert(m.filter(p).map_values(f).to_multiset() =~= large_files(
            list,
            n,
            min_size,
        ).to_multiset().add(large_under(list, n, min_size)));
    } else {
        assert(m =~= Seq::empty());
        assert(m.filter(p).map_values(f) =~= Seq::empty());
        assert(m.filter(p).map_values(f).to_multiset() =~= Multiset::empty());
        assert(large_files(list, n, min_size).to_multiset() =~= Multiset::empty());
    }
}

/// Where a walk is not cut short, it adds exactly the files of the size that is asked for, in
/// the directory and in every directory below it that is no reparse point; where it is, what
/// was collected is as much as is allowed.
pub proof fn law_walk_collects(c: Collected, ev: Seq<EventV>, dir: Entry, min_size: u64)
    requires
        c.files.len() <= c.cap,
    ensures
        ({
            let w = walked(c, ev, dir, min_size).0;
            &&& c.files.is_prefix_of(w.files)
            &&& w.cap == c.cap
            &&& w.files.len() <= w.cap
            &&& c.truncated ==> w.truncated
            &&& !c.truncated && w.truncated ==> w.files.len() == w.cap
            &&& !w.truncated ==> w.files.to_multiset() == c.files.to_multiset().add(
                match dir.children {
                    Some(list) => met(list@, list@.len() as int, plain_dir()).filter(
                        large(min_size),
                    ).map_values(row()).to_multiset(),
                    None => Multiset::empty(),
                },
            )
        }),
    decreases dir, 0int,
{
    broadcast use vstd::seq_lib::group_to_multiset_ensures;

    if !c.truncated && dir.children is Some {
        let list = dir.children->0@;
        let n = list.len() as int;
        let batch = large_files(list, n, min_size);
        let here = if batch.len() > 0 {
            (with_batch(c, batch), ev + crate::scan::batch_events(c, batch.len()))
        } else {
            (c, ev)
        };
        lemma_large(list, n, min_size);
        if batch.len() == 0 {
            assert(batch =~= Seq::empty());
            assert(c.files + batch =~= c.files);
        }
        if !here.0.truncated {
            assert(batch.take(batch.len() as int) =~= batch);
            assert(here.0.files =~= c.files + batch);
            vstd::seq_lib::lemma_multiset_commutative(c.files, batch);
            lemma_dirs_collect(here.0, here.1, list, n, min_size);
            let w = walked(c, ev, dir, min_size).0;
            if !w.truncated {
                assert(w.files.to_multiset() =~= c.files.to_multiset().add(
                    batch.to_multiset().add(large_under(list, n, min_size)),
                ));
            }
        }
    } else {
        assert(c.files.to_multiset() =~= c.files.to_multiset().add(Multiset::empty()));
    }
}

proof fn lemma_dirs_collect(
    c: Collected,
    ev: Seq<EventV>,
    list: Seq<Entry>,
    n: int,
    min_size: u64,
)
    requires
        c.files.len() <= c.cap,
        0 <= n <= list.len(),
    ensures
        ({
            let w = walked_dirs(c, ev, list, n, min_size).0;
            &&& c.files.is_prefix_of(w.files)
            &&& w.cap == c.cap
            &&& w.files.len() <= w.cap
            &&& c.truncated ==> w.truncated
            &&& !c.truncated && w.truncated ==> w.files.len() == w.cap
            &&& !w.truncated ==> w.files.to_multiset() == c.files.to_multiset().add(
                large_under(list, n, min_size),
            )
        }),
    decreases list, n,
{
    broadcast use vstd::seq_lib::group_to_multiset_ensures;

    if n > 0 {
        lemma_dirs_collect(c, ev, list, n - 1, min_size);
        let before = walked_dirs(c, ev, list, n - 1, min_size);
        let e = list[n - 1];
        let w = walked_dirs(c, ev, list, n, min_size).0;
        let nothing = Seq::<Entry>::empty();
        assert(nothing.filter(large(min_size)).map_values(row()) =~= Seq::empty());
        if e.kind == Kind::Dir && !e.reparse {
            law_walk_collects(before.0, before.1, e, min_size);
            if !w.truncated {
                if e.children is None {
                    assert(large_below(e, min_size) =~= Multiset::empty());
                }
                assert(w.files.to_multiset() =~= c.files.to_multiset().add(
                    large_under(list, n, min_size),
                ));
            }
        } else {
            assert(large_below(e, min_size) =~= Multiset::empty());
            if !w.truncated {
                assert(w.files.to_multiset() =~= c.files.to_multiset().add(
                    large_under(list, n, min_size),
                ));
            }
        }
    } else {
        assert(c.files.to_multiset() =~= c.files.to_multiset().add(Multiset::empty()));
    }
}

// ------------------------------------------------------------------------ large files

proof fn lemma_tasks_of_roots(roots: Seq<Entry>, n: int, r: int, f: (Seq<char>, u64))
    requires
        0 <= r < n <= roots.len(),
        task_files(roots[r], true).contains(f),
    ensures
        ({
            let tasks = all_tasks(roots, n);
            tasks_files(tasks, tasks.len() as int).contains(f) && tasks.len() > 0
        }),
    decreases n,
{
    broadcast use vstd::seq_lib::group_to_multiset_ensures;

    let tasks = all_tasks(roots, n);
    let before = all_tasks(roots, n - 1);
    let last = root_tasks(roots[n - 1]);
    assert(last.len() > 0);
    lemma_tasks_add(before, last, last.len() as int);
    let all = tasks_files(tasks, tasks.len() as int);
    let a = tasks_files(before, before.len() as int);
    let b = tasks_files(last, last.len() as int);
    assert(all == a + b);
    if r == n - 1 {
        law_tasks_cover_once(roots[r]);
        assert(task_files(roots[r], true).to_multiset().count(f) > 0);
        assert(b.contains(f));
        let k = choose|k: int| 0 <= k < b.len() && b[k] == f;
        assert(all[a.len() + k] == f);
    } else {
        lemma_tasks_of_roots(roots, n - 1, r, f);
        let k = choose|k: int| 0 <= k < a.len() && a[k] == f;
        assert(all[k] == f);
    }
}

proof fn lemma_tasks_add(a: Seq<(Entry, bool)>, b: Seq<(Entry, bool)>, n: int)
    requires
        0 <= n <= b.len(),
    ensures
        tasks_files(a + b, a.len() + n) == tasks_files(a, a.len() as int) + tasks_files(b, n),
    decreases n,
{
    if n > 0 {
        lemma_tasks_add(a, b, n - 1);
        assert((a + b)[a.len() + n - 1] == b[n - 1]);
        assert(tasks_files(a + b, a.len() + n) =~= tasks_files(a, a.len() as int) + tasks_files(b, n));
    } else {
        lemma_tasks_front(a, b, a.len() as int);
        assert(tasks_files(a, a.len() as int) + tasks_files(b, 0) =~= tasks_files(a, a.len() as int));
    }
}

proof fn lemma_tasks_front(a: Seq<(Entry, bool)>, b: Seq<(Entry, bool)>, n: int)
    requires
        0 <= n <= a.len(),
    ensures
        tasks_files(a + b, n) == tasks_files(a, n),
    decreases n,
{
    if n > 0 {
        lemma_tasks_front(a, b, n - 1);
        assert((a + b)[n - 1] == a[n - 1]);
    }
}

/// The rows that the scan for large files tells.
pub open spec fn told_rows(roots: Seq<Entry>, count: nat) -> Seq<(Seq<char>, u64)> {
    let tasks = all_tasks(roots, roots.len() as int);
    let files = tasks_files(tasks, tasks.len() as int);
    top(
        files,
        files.len() as int,
        if count > 0 {
            count
        } else {
            1
        },
    )
}

/// The scan for large files tells the largest: of every file below a root, it is told, or as
/// many as were asked for are told and none of them is smaller. Each is told with its own path,
/// size and rank, largest first.
pub proof fn law_largest_are_told(roots: Seq<Entry>, count: nat, r: int, f: (Seq<char>, u64))
    requires
        0 <= r < roots.len(),
        task_files(roots[r], true).contains(f),
        count > 0,
    ensures
        ({
            let told = told_rows(roots, count);
            let report = big_report(roots, count);
            &&& told.contains(f) || (told.len() == count && forall|k: int|
                0 <= k < told.len() ==> (#[trigger] told[k]).1 >= f.1)
            &&& told.len() <= count
            &&& forall|a: int, b: int|
                0 <= a < b < told.len() ==> (#[trigger] told[a]).1 >= (#[trigger] told[b]).1
            &&& forall|k: int|
                0 <= k < told.len() ==> report.contains(
                    item_event(
                        "bigfile"@,
                        (#[trigger] told[k]).0,
                        told[k].1 as nat,
                        seq![("rank"@, dec((k + 1) as nat))],
                    ),
                )
        }),
{
    let tasks = all_tasks(roots, roots.len() as int);
    let files = tasks_files(tasks, tasks.len() as int);
    lemma_tasks_of_roots(roots, roots.len() as int, r, f);
    law_top_is_largest(files, files.len() as int, count);
    let told = told_rows(roots, count);
    let i = choose|i: int| 0 <= i < files.len() && files[i] == f;
    assert(told.contains(files[i]) || told.len() == count);
    let report = big_report(roots, count);
    let beats = tasks_beats(tasks, tasks.len() as int);
    assert forall|k: int| 0 <= k < told.len() implies report.contains(
        item_event(
            "bigfile"@,
            (#[trigger] told[k]).0,
            told[k].1 as nat,
            seq![("rank"@, dec((k + 1) as nat))],
        ),
    ) by {
        assert(big_items(told)[k] == report[beats.len() + k]);
    }
}

/// The directories directly below a root that hold anything are told with the size of all that
/// lies below them, and no other entry is.
pub proof fn law_sized_dirs(list: Seq<Entry>, n: int, i: int)
    requires
        0 <= i < n <= list.len(),
    ensures
        ({
            let e = list[i];
            let size = cap64(dir_total(e)) as u64;
            e.kind == Kind::Dir && !e.reparse && size > 0 ==> sized_dirs(list, n).contains(
                (e.path@, size),
            )
        }),
        forall|k: int|
            0 <= k < sized_dirs(list, n).len() ==> exists|j: int|
                0 <= j < n && (#[trigger] list[j]).kind == Kind::Dir && !list[j].reparse && (
                #[trigger] sized_dirs(list, n)[k]) == (
                    list[j].path@,
                    cap64(dir_total(list[j])) as u64,
                ) && sized_dirs(list, n)[k].1 > 0,
    decreases n,
{
    let now = sized_dirs(list, n);
    let before = sized_dirs(list, n - 1);
    let e = list[n - 1];
    let one = (e.path@, cap64(dir_total(e)) as u64);
    if n > 1 {
        law_sized_dirs(
            list,
            n - 1,
            if i < n - 1 {
                i
            } else {
                0
            },
        );
    }
    if i < n - 1 {
        let x = (list[i].path@, cap64(dir_total(list[i])) as u64);
        if before.contains(x) {
            let k = choose|k: int| 0 <= k < before.len() && before[k] == x;
            assert(now[k] == x);
        }
    } else if e.kind == Kind::Dir && !e.reparse && one.1 > 0 {
        assert(now[before.len() as int] == one);
    }
    assert forall|k: int| 0 <= k < now.len() implies exists|j: int|
        0 <= j < n && (#[trigger] list[j]).kind == Kind::Dir && !list[j].reparse && (
        #[trigger] now[k]) == (list[j].path@, cap64(dir_total(list[j])) as u64) && now[k].1 > 0 by {
        if k < before.len() {
            assert(now[k] == before[k]);
            let j = choose|j: int|
                0 <= j < n - 1 && (#[trigger] list[j]).kind == Kind::Dir && !list[j].reparse
                    && before[k] == (list[j].path@, cap64(dir_total(list[j])) as u64)
                    && before[k].1 > 0;
            assert(list[j].kind == Kind::Dir);
        } else {
            assert(list[n - 1].kind == Kind::Dir);
        }
    }
}

/// Of the directories of applications exactly those of the size that is asked for are kept.
pub proof fn law_only_large_directories(
    list: Seq<(Seq<char>, u64)>,
    n: int,
    label: Seq<char>,
    min: nat,
    i: int,
)
    requires
        0 <= i < n <= list.len(),
    ensures
        list[i].1 >= min ==> labelled(list, n, label, min).contains((label, list[i].0, list[i].1)),
        forall|k: int|
            0 <= k < labelled(list, n, label, min).len() ==> (#[trigger] labelled(
                list,
                n,
                label,
                min,
            )[k]).2 >= min && labelled(list, n, label, min)[k].0 == label,
    decreases n,
{
    let now = labelled(list, n, label, min);
    let before = labelled(list, n - 1, label, min);
    if n > 1 {
        law_only_large_directories(
            list,
            n - 1,
            label,
            min,
            if i < n - 1 {
                i
            } else {
                0
            },
        );
    }
    if i < n - 1 {
        if before.contains((label, list[i].0, list[i].1)) {
            let k = choose|k: int| 0 <= k < before.len() && before[k] == (label, list[i].0, list[i].1);
            assert(now[k] == before[k]);
        }
    } else if list[i].1 >= min {
        assert(now[before.len() as int] == (label, list[i].0, list[i].1));
    }
    assert forall|k: int| 0 <= k < now.len() implies (#[trigger] now[k]).2 >= min && now[k].0
        == label by {
        if k < before.len() {
            assert(now[k] == before[k]);
        }
    }
}

/// The directories that the scan of applications tells, of both roots, in the order they are
/// found.
pub open spec fn app_all(min_size_mb: nat, local: Option<&Entry>, roaming: Option<&Entry>) -> Seq<
    (Seq<char>, Seq<char>, u64),
> {
    app_dirs(local, "Local"@, min_size_mb * 1048576) + app_dirs(
        roaming,
        "Roaming"@,
        min_size_mb * 1048576,
    )
}

/// Every directory that the scan of applications finds is told with its size and the name of
/// its root, once, larger ones first.
pub proof fn law_applications_are_told(
    min_size_mb: nat,
    local: Option<&Entry>,
    roaming: Option<&Entry>,
    i: int,
)
    requires
        app_all(min_size_mb, local, roaming).len() <= usize::MAX,
        0 <= i < app_all(min_size_mb, local, roaming).len(),
    ensures
        ({
            let all = app_all(min_size_mb, local, roaming);
            let report = app_report(min_size_mb, local, roaming);
            let order = ranked(app_sizes(all), all.len() as int);
            &&& report.len() == all.len() + 1
            &&& report.last() == EventV::Progress(100)
            &&& order.len() == all.len()
            &&& report[i] == item_event(
                "appdata"@,
                all[order[i] as int].1,
                all[order[i] as int].2 as nat,
                seq![("root"@, all[order[i] as int].0)],
            )
            &&& is_ranking(app_sizes(all), order, all.len() as int)
        }),
{
    let all = app_all(min_size_mb, local, roaming);
    law_ranked(app_sizes(all), all.len() as int);
}

/// A path is told with the size of its file, or of all files below its directory; one that is
/// not there is told as missing.
pub proof fn law_sizes_are_told(path: Seq<char>, e: Entry)
    ensures
        e.kind == Kind::File ==> size_event(path, Some(e)) == Some(
            item_event("size"@, path, e.size as nat, seq![("exists"@, "true"@)]),
        ),
        e.kind == Kind::Dir && dir_total(e) <= u64::MAX ==> size_event(path, Some(e)) == Some(
            item_event("size"@, path, dir_total(e), seq![("exists"@, "true"@)]),
        ),
        size_event(path, None) == Some(
            item_event("size"@, path, 0, seq![("exists"@, "false"@)]),
        ),
{
}

// -------------------------------------------------------------------------- duplicates

proof fn lemma_first_with(keys: Seq<Option<Seq<char>>>, k: Seq<char>, from: int, i: int)
    requires
        0 <= from <= i < keys.len(),
        keys[i] == Some(k),
    ensures
        from <= first_with(keys, k, from) <= i,
        keys[first_with(keys, k, from)] == Some(k),
    decreases i - from,
{
    if keys[from] != Some(k) {
        lemma_first_with(keys, k, from + 1, i);
    }
}

proof fn lemma_group_of_label(labels: Seq<Option<usize>>, k: int, h: int)
    requires
        0 <= h < k,
        carriers(labels, h, labels.len() as int).len() >= 2,
    ensures
        groups_below(labels, k).contains(carriers(labels, h, labels.len() as int)),
    decreases k,
{
    let now = groups_below(labels, k);
    let before = groups_below(labels, k - 1);
    if h == k - 1 {
        assert(now[before.len() as int] == carriers(labels, h, labels.len() as int));
    } else {
        lemma_group_of_label(labels, k - 1, h);
        let g = carriers(labels, h, labels.len() as int);
        let x = choose|x: int| 0 <= x < before.len() && before[x] == g;
        assert(now[x] == g);
    }
}

proof fn lemma_label_of_group(labels: Seq<Option<usize>>, k: int, x: int)
    requires
        0 <= x < groups_below(labels, k).len(),
        0 <= k,
    ensures
        exists|h: int|
            0 <= h < k && groups_below(labels, k)[x] == #[trigger] carriers(
                labels,
                h,
                labels.len() as int,
            ),
    decreases k,
{
    if k > 0 {
        let before = groups_below(labels, k - 1);
        if x < before.len() {
            lemma_label_of_group(labels, k - 1, x);
            let h = choose|h: int|
                0 <= h < k - 1 && before[x] == #[trigger] carriers(labels, h, labels.len() as int);
            assert(groups_below(labels, k)[x] == carriers(labels, h, labels.len() as int));
        } else {
            assert(groups_below(labels, k)[x] == carriers(labels, k - 1, labels.len() as int));
        }
    }
}

/// Whether two positions stand in one group.
pub open spec fn together(gs: Seq<Seq<usize>>, i: int, j: int) -> bool {
    exists|x: int|
        0 <= x < gs.len() && (#[trigger] gs[x]).contains(i as usize) && gs[x].contains(j as usize)
}

/// Two positions stand in one group exactly where they have the same key.
pub proof fn law_grouped_by_key(keys: Seq<Option<Seq<char>>>, i: int, j: int)
    requires
        0 <= i < j < keys.len() <= usize::MAX,
    ensures
        together(groups_of(key_labels(keys)), i, j) <==> keys[i] is Some && keys[i] == keys[j],
{
    let labels = key_labels(keys);
    let n = labels.len() as int;
    let gs = groups_of(labels);
    if keys[i] is Some && keys[i] == keys[j] {
        let k = keys[i]->0;
        lemma_first_with(keys, k, 0, i);
        let h = first_with(keys, k, 0);
        law_carriers(labels, h, n);
        let g = carriers(labels, h, n);
        assert(labels[i] == Some(h as usize) && labels[j] == Some(h as usize));
        assert(g.contains(i as usize) && g.contains(j as usize));
        let a = choose|a: int| 0 <= a < g.len() && g[a] == i as usize;
        let b = choose|b: int| 0 <= b < g.len() && g[b] == j as usize;
        assert(a != b);
        lemma_group_of_label(labels, n, h);
        let x = choose|x: int| 0 <= x < gs.len() && gs[x] == g;
        assert(gs[x].contains(i as usize));
    }
    if together(gs, i, j) {
        let x = choose|x: int|
            0 <= x < gs.len() && (#[trigger] gs[x]).contains(i as usize) && gs[x].contains(j as usize);
        lemma_label_of_group(labels, n, x);
        let h = choose|h: int| 0 <= h < n && gs[x] == #[trigger] carriers(labels, h, n);
        law_carriers(labels, h, n);
        let g = gs[x];
        let a = choose|a: int| 0 <= a < g.len() && g[a] == i as usize;
        let b = choose|b: int| 0 <= b < g.len() && g[b] == j as usize;
        assert(labels[g[a] as int] matches Some(l) && l == h);
        assert(labels[g[b] as int] matches Some(l) && l == h);
        lemma_first_with(keys, keys[i]->0, 0, i);
        lemma_first_with(keys, keys[j]->0, 0, j);
    }
}

proof fn lemma_arranged(gs: Seq<Seq<usize>>, keys: Seq<u64>, i: int, j: int)
    requires
        gs.len() == keys.len(),
        keys.len() <= usize::MAX,
    ensures
        together(arranged(gs, keys), i, j) <==> together(gs, i, j),
        arranged(gs, keys).len() == gs.len(),
{
    let n = gs.len() as int;
    law_ranked(keys, n);
    let r = ranked(keys, n);
    let out = arranged(gs, keys);
    if together(out, i, j) {
        let x = choose|x: int|
            0 <= x < out.len() && (#[trigger] out[x]).contains(i as usize) && out[x].contains(j as usize);
        assert(gs[r[x] as int].contains(i as usize));
    }
    if together(gs, i, j) {
        let x = choose|x: int|
            0 <= x < gs.len() && (#[trigger] gs[x]).contains(i as usize) && gs[x].contains(j as usize);
        lemma_ranking_holds(keys, n, x);
        let y = choose|y: int| 0 <= y < r.len() && #[trigger] r[y] == x;
        assert(out[y] == gs[x]);
        assert(out[y].contains(i as usize));
    }
}

proof fn lemma_slot(keys: Seq<u64>, r: Seq<usize>, k: u64, i: int)
    requires
        0 <= i <= r.len(),
    ensures
        i <= slot(keys, r, k, i) <= r.len(),
    decreases r.len() - i,
{
    if i < r.len() && !(keys[r[i] as int] < k) {
        lemma_slot(keys, r, k, i + 1);
    }
}

/// Every index has its place in the order.
proof fn lemma_ranking_holds(keys: Seq<u64>, n: int, x: int)
    requires
        0 <= x < n <= usize::MAX,
    ensures
        exists|y: int| 0 <= y < ranked(keys, n).len() && #[trigger] ranked(keys, n)[y] == x,
    decreases n,
{
    let r = ranked(keys, n - 1);
    let at = slot(keys, r, keys[n - 1], 0);
    lemma_slot(keys, r, keys[n - 1], 0);
    let now = ranked(keys, n);
    if x == n - 1 {
        assert(now[at] == x);
    } else {
        lemma_ranking_holds(keys, n - 1, x);
        let y = choose|y: int| 0 <= y < r.len() && #[trigger] r[y] == x;
        if y < at {
            assert(now[y] == x);
        } else {
            assert(now[y + 1] == x);
        }
    }
}

/// Two files are told as the same exactly where their contents have the same fingerprint and
/// the same size, they are not empty, and they are of the size that is asked for; files are
/// told in the order of their size.
pub proof fn law_content_groups(files: Seq<FileV>, min_size: u64, i: int, j: int, x: int, y: int)
    requires
        0 <= i < j < files.len() <= usize::MAX,
        files[i].print matches Some(p) ==> p.len() == 32,
        files[j].print matches Some(p) ==> p.len() == 32,
        0 <= x < y < content_groups(files, min_size).len(),
    ensures
        together(content_groups(files, min_size), i, j) <==> files[i].print is Some
            && files[i].print == files[j].print && files[i].size == files[j].size && files[i].size > 0
            && files[i].size >= min_size,
        files[content_groups(files, min_size)[x][0] as int].size >= files[content_groups(
            files,
            min_size,
        )[y][0] as int].size,
{
    let keys = content_keys(files, min_size);
    let gs = groups_of(key_labels(keys));
    crate::groups::lemma_group_number(key_labels(keys), files.len() as int);
    law_grouped_by_key(keys, i, j);
    lemma_arranged(gs, first_sizes(files, gs), i, j);
    if files[i].print is Some && files[j].print is Some && crate::duplicates::print_wanted(
        files[i].size,
        min_size,
    ) && crate::duplicates::print_wanted(files[j].size, min_size) {
        crate::duplicates::law_content_key(files[i], files[j], min_size);
    }
    law_ranked(first_sizes(files, gs), gs.len() as int);
}

/// Two files are told as of the same name exactly where neither is in a group of another kind,
/// neither is empty, and their names are the same but for the case of their letters.
pub proof fn law_name_groups(files: Seq<FileV>, taken: Set<Seq<char>>, i: int, j: int)
    requires
        0 <= i < j < files.len() <= usize::MAX,
    ensures
        together(name_groups(files, taken), i, j) <==> {
            &&& files[i].size > 0
            &&& files[j].size > 0
            &&& !taken.contains(files[i].path)
            &&& !taken.contains(files[j].path)
            &&& file_name_of(files[i].path) is Some
            &&& file_name_of(files[j].path) is Some
            &&& lowercase(file_name_of(files[i].path)->0).len() > 0
            &&& lowercase(file_name_of(files[i].path)->0) == lowercase(
                file_name_of(files[j].path)->0,
            )
        },
{
    let keys = name_keys(files, taken);
    let gs = groups_of(key_labels(keys));
    crate::groups::lemma_group_number(key_labels(keys), files.len() as int);
    law_grouped_by_key(keys, i, j);
    lemma_arranged(gs, group_sums(files, gs), i, j);
}

/// Of a group the first file is told as the one to keep, every other one as one to remove, each
/// with its own path and size and the name of the group.
pub proof fn law_group_is_told(
    files: Seq<FileV>,
    g: Seq<usize>,
    n: int,
    gid: Seq<char>,
    kind: Seq<char>,
    k: int,
)
    requires
        0 <= k < n <= g.len(),
    ensures
        dup_events(files, g, n, gid, kind, None).len() == n,
        dup_events(files, g, n, gid, kind, None)[k] == item_event(
            "duplicate"@,
            files[g[k] as int].path,
            files[g[k] as int].size as nat,
            seq![
                ("group"@, gid),
                (
                    "role"@,
                    if k == 0 {
                        "kept"@
                    } else {
                        "candidate"@
                    },
                ),
                ("match"@, kind),
            ],
        ),
    decreases n,
{
    let before = dup_events(files, g, n - 1, gid, kind, None);
    if k < n - 1 {
        law_group_is_told(files, g, n - 1, gid, kind, k);
    } else if n > 1 {
        law_group_is_told(files, g, n - 1, gid, kind, 0);
    }
    assert(dup_events(files, g, n, gid, kind, None)[k] == if k < before.len() {
        before[k]
    } else {
        item_event(
            "duplicate"@,
            files[g[n - 1] as int].path,
            files[g[n - 1] as int].size as nat,
            dup_extra(n == 1, gid, kind, None),
        )
    });
}

/// Exactly the empty files are told as empty.
pub proof fn law_empty_files_are_told(files: Seq<FileV>, n: int, i: int)
    requires
        0 <= i < n <= files.len(),
    ensures
        files[i].size == 0 ==> empty_events(files, n).contains(
            item_event("emptyfile"@, files[i].path, 0, Seq::empty()),
        ),
        empty_events(files, n).len() == crate::laws::count::count(n, no_bytes(files)),
    decreases n,
{
    let now = empty_events(files, n);
    let before = empty_events(files, n - 1);
    if n > 1 {
        law_empty_files_are_told(
            files,
            n - 1,
            if i < n - 1 {
                i
            } else {
                0
            },
        );
    } else {
        assert(crate::laws::count::count(0, no_bytes(files)) == 0);
    }
    let x = item_event("emptyfile"@, files[i].path, 0, Seq::empty());
    if files[i].size == 0 {
        if i < n - 1 {
            let k = choose|k: int| 0 <= k < before.len() && before[k] == x;
            assert(now[k] == x);
        } else {
            assert(now[before.len() as int] == x);
        }
    }
}

/// The positions of empty files.
pub open spec fn no_bytes(files: Seq<FileV>) -> spec_fn(int) -> bool {
    |i: int| files[i].size == 0
}

/// What a group of files is placed by is what its files hold together.
pub proof fn law_group_size(files: Seq<FileV>, g: Seq<usize>, n: int)
    requires
        0 <= n <= g.len(),
    ensures
        size_sum(files, g, n) == crate::laws::count::added(n, size_at(files, g)),
    decreases n,
{
    if n > 0 {
        law_group_size(files, g, n - 1);
    }
}

/// The size of a file of a group.
pub open spec fn size_at(files: Seq<FileV>, g: Seq<usize>) -> spec_fn(int) -> int {
    |k: int| files[g[k] as int].size as int
}

/// A document is compared with those of its own extension alone, where it is neither too small
/// nor too large nor in a group already.
pub proof fn law_only_documents_are_compared(f: FileV, ext: Seq<char>, taken: Set<Seq<char>>)
    ensures
        eligible(f, ext, taken) ==> 256 <= f.size <= 4194304 && !taken.contains(f.path)
            && extension_of(f.path) is Some && lowercase(extension_of(f.path)->0) == ext,
        256 <= f.size <= 4194304 && !taken.contains(f.path) && extension_of(f.path) == Some(
            ext,
        ) && lowercase(ext) == ext ==> eligible(f, ext, taken),
        sim_exts().contains("docx"@) && sim_exts().contains("txt"@) && sim_exts().contains("md"@),
        sim_exts().contains("log"@) && sim_exts().contains("csv"@) && sim_exts().len() == 5,
{
    let e = sim_exts();
    assert(e[0] == "txt"@ && e[1] == "md"@ && e[2] == "log"@ && e[3] == "csv"@ && e[4] == "docx"@);
}

} // verus!
