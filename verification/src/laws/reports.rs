//! What holds of whole reports: of duplicates, of what is empty and of sizes, and of the lists
//! and numbers they rest on.

use crate::clock::{moment_text, padded};
use crate::doc_groups::{
    all_warnings, candidates, documents, members, sim_exts, similar_warnings, sketches_of, FileV,
    SIM_EXT_COUNT, SIM_MAX_DOCS,
};
use crate::duplicates::{
    all_groups, closing, dup_events, duplicates_report, empty_events, found_events, groups_events,
    pass_events, pass_share, scores, search_events, PROGRESS_EVERY,
};
use crate::empty::{
    dir_items, empty_report, file_items, folded, is_ignored, root_dirs, root_files, root_kept,
    roots_kept, Kept, Walk,
};
use crate::events::{item_event, EventV};
use crate::json::{array_member, json_text, JsonV};
use crate::laws::paths::{bare_at, law_root_dirs, law_root_files};
use crate::laws::tree::{added_to, bare_tree};
use crate::perf::{cpu_count, items_in, mem_clean_line, mem_refusal, CPU_MAX, CPU_RECORD};
use crate::protect::{
    default_roots, law_subtree, lower_texts, protected_norm, roots_of,
};
use crate::rulepath::Env;
use crate::scan::{size_event, size_events, unreadable_text, MAX_SCAN_ENTRIES};
use crate::similar::{lengths, used_up};
use crate::text::{ascii_lowercase, dec};
use crate::world::{Entry, Kind};
use vstd::prelude::*;

verus! {

/// A padded number ends in its digits, with zeros before them, and is as long as asked for
/// or as its digits.
pub proof fn law_padded(v: nat, n: nat)
    ensures
        padded(v, n).len() == (if dec(v).len() < n {
            n
        } else {
            dec(v).len()
        }),
        dec(v).is_suffix_of(padded(v, n)),
        forall|i: int|
            0 <= i < padded(v, n).len() - dec(v).len() ==> (#[trigger] padded(v, n)[i]) == '0',
{
    let p = padded(v, n);
    assert(p.subrange(p.len() - dec(v).len(), p.len() as int) =~= dec(v));
}

/// The text of a moment tells its date, hour, minute, second and thousandths in this order,
/// each with a fixed number of digits.
pub proof fn law_moment(y: nat, m: nat, d: nat, h: nat, min: nat, s: nat, ms: nat)
    requires
        h < 24,
        min < 60,
        s < 60,
        ms < 1000,
    ensures
        moment_text(
            y as int,
            m as int,
            d as int,
            (h * 3_600_000 + min * 60_000 + s * 1000 + ms) as int,
        ) == padded(y, 4) + "-"@ + padded(m, 2) + "-"@ + padded(d, 2) + "T"@ + padded(h, 2) + ":"@
            + padded(min, 2) + ":"@ + padded(s, 2) + "."@ + padded(ms, 3) + "Z"@,
{
    let t = (h * 3_600_000 + min * 60_000 + s * 1000 + ms) as int;
    assert(t / 3_600_000 == h);
    assert(t / 60_000 == h * 60 + min);
    assert(t / 60_000 % 60 == min);
    assert(t / 1000 == h * 3600 + min * 60 + s);
    assert(t / 1000 % 60 == s);
    assert(t % 1000 == ms);
}

// --------------------------------------------------------------------------- duplicates

/// What is told of the member `k` of a group beside its path and size.
pub open spec fn told_of(k: int, gid: Seq<char>, kind: Seq<char>, sim: Option<u64>) -> Seq<
    (Seq<char>, Seq<char>),
> {
    let plain = seq![
        ("group"@, gid),
        (
            "role"@,
            if k == 0 {
                "kept"@
            } else {
                "candidate"@
            },
        ),
        ("match"@, kind),
    ];
    if sim is Some {
        plain.push(("sim"@, dec(sim->0 as nat) + "%"@))
    } else {
        plain
    }
}

proof fn lemma_group(
    files: Seq<FileV>,
    g: Seq<usize>,
    n: int,
    gid: Seq<char>,
    kind: Seq<char>,
    sim: Option<u64>,
    k: int,
)
    requires
        0 <= n <= g.len(),
    ensures
        dup_events(files, g, n, gid, kind, sim).len() == n,
        0 <= k < n ==> dup_events(files, g, n, gid, kind, sim)[k] == item_event(
            "duplicate"@,
            files[g[k] as int].path,
            files[g[k] as int].size as nat,
            told_of(k, gid, kind, sim),
        ),
    decreases n,
{
    if n > 0 {
        lemma_group(files, g, n - 1, gid, kind, sim, k);
    }
}

/// Every file of every group is told, under a name that numbers the groups through, the
/// first of a group as the one to keep; of similar files how alike they are.
pub proof fn law_groups_are_told(
    files: Seq<FileV>,
    gs: Seq<Seq<usize>>,
    n: int,
    from: nat,
    head: Seq<char>,
    kind: Seq<char>,
    sims: Option<Seq<u64>>,
    x: int,
    k: int,
)
    requires
        0 <= x < n <= gs.len(),
        0 <= k < gs[x].len(),
    ensures
        groups_events(files, gs, n, from, head, kind, sims).contains(
            item_event(
                "duplicate"@,
                files[gs[x][k] as int].path,
                files[gs[x][k] as int].size as nat,
                told_of(
                    k,
                    head + padded((from + x + 1) as nat, 4),
                    kind,
                    if sims is Some {
                        Some(sims->0[x])
                    } else {
                        None
                    },
                ),
            ),
        ),
    decreases n,
{
    let all = groups_events(files, gs, n, from, head, kind, sims);
    let before = groups_events(files, gs, n - 1, from, head, kind, sims);
    let g = gs[n - 1];
    let sim = match sims {
        Some(s) => Some(s[n - 1]),
        None => None,
    };
    let gid = head + padded(from + n as nat, 4);
    let last = dup_events(files, g, g.len() as int, gid, kind, sim);
    assert(all == before + last);
    if x == n - 1 {
        lemma_group(files, g, g.len() as int, gid, kind, sim, k);
        assert(all[before.len() + k] == last[k]);
    } else {
        law_groups_are_told(files, gs, n - 1, from, head, kind, sims, x, k);
        let e = item_event(
            "duplicate"@,
            files[gs[x][k] as int].path,
            files[gs[x][k] as int].size as nat,
            told_of(
                k,
                head + padded((from + x + 1) as nat, 4),
                kind,
                if sims is Some {
                    Some(sims->0[x])
                } else {
                    None
                },
            ),
        );
        let i = choose|i: int| 0 <= i < before.len() && before[i] == e;
        assert(all[i] == e);
    }
}

proof fn lemma_groups_none(
    files: Seq<FileV>,
    gs: Seq<Seq<usize>>,
    n: int,
    from: nat,
    head: Seq<char>,
    kind: Seq<char>,
    sims: Option<Seq<u64>>,
    i: int,
)
    requires
        0 <= n <= gs.len(),
        0 <= i < groups_events(files, gs, n, from, head, kind, sims).len(),
    ensures
        exists|x: int, k: int|
            0 <= x < n && 0 <= k < gs[x].len() && groups_events(
                files,
                gs,
                n,
                from,
                head,
                kind,
                sims,
            )[i] is Item && groups_events(files, gs, n, from, head, kind, sims)[i]->path
                == files[#[trigger] gs[x][k] as int].path,
    decreases n,
{
    let all = groups_events(files, gs, n, from, head, kind, sims);
    if n > 0 {
        let before = groups_events(files, gs, n - 1, from, head, kind, sims);
        let g = gs[n - 1];
        let sim = match sims {
            Some(s) => Some(s[n - 1]),
            None => None,
        };
        let gid = head + padded(from + n as nat, 4);
        if i < before.len() {
            lemma_groups_none(files, gs, n - 1, from, head, kind, sims, i);
            let (x, k) = choose|x: int, k: int|
                0 <= x < n - 1 && 0 <= k < gs[x].len() && before[i] is Item && before[i]->path
                    == files[#[trigger] gs[x][k] as int].path;
            assert(all[i] == before[i]);
            assert(all[i]->path == files[gs[x][k] as int].path);
        } else {
            let k = i - before.len();
            lemma_group(files, g, g.len() as int, gid, kind, sim, k);
            assert(all[i] == dup_events(files, g, g.len() as int, gid, kind, sim)[k]);
            assert(all[i]->path == files[gs[n - 1][k] as int].path);
        }
    }
}

/// Nothing is told as a duplicate but the files of the groups that were found.
pub proof fn law_only_groups_are_told(
    files: Seq<FileV>,
    gs: Seq<Seq<usize>>,
    from: nat,
    head: Seq<char>,
    kind: Seq<char>,
    sims: Option<Seq<u64>>,
    i: int,
)
    requires
        0 <= i < groups_events(files, gs, gs.len() as int, from, head, kind, sims).len(),
    ensures
        exists|x: int, k: int|
            0 <= x < gs.len() && 0 <= k < gs[x].len() && groups_events(
                files,
                gs,
                gs.len() as int,
                from,
                head,
                kind,
                sims,
            )[i] is Item && groups_events(
                files,
                gs,
                gs.len() as int,
                from,
                head,
                kind,
                sims,
            )[i]->path == files[#[trigger] gs[x][k] as int].path,
{
    lemma_groups_none(files, gs, gs.len() as int, from, head, kind, sims, i);
}

/// The report of duplicates holds every group of equal, of similar and of equally named
/// files, the groups of one search numbered behind those of the one before, then the empty
/// files, and ends with the whole of the work done.
pub proof fn law_duplicates_report(files: Seq<FileV>, min_size: u64, e: EventV)
    ensures
        ({
            let (content, similar, names) = all_groups(files, min_size);
            let report = duplicates_report(files, min_size);
            &&& report.last() == EventV::Progress(100)
            &&& groups_events(
                files,
                content,
                content.len() as int,
                0,
                "dupc"@,
                "content"@,
                None,
            ).contains(e) ==> report.contains(e)
            &&& groups_events(
                files,
                members(similar),
                similar.len() as int,
                content.len(),
                "dups"@,
                "similar"@,
                Some(scores(similar)),
            ).contains(e) ==> report.contains(e)
            &&& groups_events(
                files,
                names,
                names.len() as int,
                content.len() + similar.len(),
                "dupn"@,
                "name"@,
                None,
            ).contains(e) ==> report.contains(e)
            &&& empty_events(files, files.len() as int).contains(e) ==> report.contains(e)
        }),
{
    let (content, similar, names) = all_groups(files, min_size);
    let report = duplicates_report(files, min_size);
    let search = search_events(files, min_size);
    let found = found_events(files, content, similar, names);
    let empty = empty_events(files, files.len() as int);
    let a = groups_events(files, content, content.len() as int, 0, "dupc"@, "content"@, None);
    let b = groups_events(
        files,
        members(similar),
        similar.len() as int,
        content.len(),
        "dups"@,
        "similar"@,
        Some(scores(similar)),
    );
    let c = groups_events(
        files,
        names,
        names.len() as int,
        content.len() + similar.len(),
        "dupn"@,
        "name"@,
        None,
    );
    assert(found == a + b + c);
    assert(report == search + found + empty.push(EventV::Progress(100)));
    let s = search.len() as int;
    if a.contains(e) {
        let i = choose|i: int| 0 <= i < a.len() && a[i] == e;
        assert(report[s + i] == e);
    }
    if b.contains(e) {
        let i = choose|i: int| 0 <= i < b.len() && b[i] == e;
        assert(report[s + a.len() + i] == e);
    }
    if c.contains(e) {
        let i = choose|i: int| 0 <= i < c.len() && c[i] == e;
        assert(report[s + a.len() + b.len() + i] == e);
    }
    if empty.contains(e) {
        let i = choose|i: int| 0 <= i < empty.len() && empty[i] == e;
        assert(report[s + found.len() + i] == e);
    }
}

/// While files are compared the share that is done is told for the first of every two
/// thousand, and for no other.
pub proof fn law_shares_are_told(total: nat, n: int)
    requires
        0 <= n,
    ensures
        pass_events(total, n).len() == (n + 1999) / 2000,
        forall|j: int|
            0 <= j < pass_events(total, n).len() ==> #[trigger] pass_events(total, n)[j]
                == EventV::Progress(pass_share((2000 * j) as nat, total)),
    decreases n,
{
    assert(PROGRESS_EVERY == 2000);
    if n > 0 {
        law_shares_are_told(total, n - 1);
        if (n - 1) % 2000 == 0 {
            let j: int = (n - 1) / 2000;
            assert(n - 1 == 2000 * j);
            assert((n - 1 + 1999) / 2000 == j);
        }
    }
}

/// That a search was cut off is said exactly where it was.
pub proof fn law_cut_off_is_said(c: crate::scan::Collected)
    ensures
        closing(c).contains(EventV::Truncated) == c.truncated,
        closing(c).len() <= 1,
{
    if c.truncated {
        assert(closing(c)[0] == EventV::Truncated);
    }
}

/// More than two thousand documents of one kind are told as too many, and comparisons that
/// ran out as such; of each of the five kinds of documents.
pub proof fn law_warnings(files: Seq<FileV>, taken: Set<Seq<char>>, ext: Seq<char>)
    ensures
        ({
            let n = candidates(files, ext, taken, files.len() as int).len();
            let out = used_up(lengths(sketches_of(files, documents(files, ext, taken))));
            let w = similar_warnings(files, ext, taken);
            &&& w.len() == (if n > 2000 {
                1int
            } else {
                0
            }) + (if out {
                1int
            } else {
                0
            })
            &&& n > 2000 ==> w[0] == EventV::Warn(
                "."@ + ext + " 文档 "@ + dec(n) + " 个超出相似检测上限，仅分析前 "@ + dec(2000) + " 个"@,
            )
            &&& out ==> w.last() == EventV::Warn(
                "."@ + ext + " 相似比较次数达上限，部分文档未参与聚类"@,
            )
        }),
        all_warnings(files, taken, 0).len() == 0,
        sim_exts() == seq!["txt"@, "md"@, "log"@, "csv"@, "docx"@],
        SIM_EXT_COUNT == 5,
{
    assert(SIM_MAX_DOCS == 2000);
}

proof fn lemma_all_warnings(files: Seq<FileV>, taken: Set<Seq<char>>, k: int, x: int, e: EventV)
    requires
        0 <= x < k,
        similar_warnings(files, sim_exts()[x], taken).contains(e),
    ensures
        all_warnings(files, taken, k).contains(e),
    decreases k,
{
    let all = all_warnings(files, taken, k);
    let before = all_warnings(files, taken, k - 1);
    let last = similar_warnings(files, sim_exts()[k - 1], taken);
    assert(all == before + last);
    if x == k - 1 {
        let i = choose|i: int| 0 <= i < last.len() && last[i] == e;
        assert(all[before.len() + i] == e);
    } else {
        lemma_all_warnings(files, taken, k - 1, x, e);
        let i = choose|i: int| 0 <= i < before.len() && before[i] == e;
        assert(all[i] == e);
    }
}

/// No warning of any kind of documents is held back.
pub proof fn law_no_warning_is_lost(files: Seq<FileV>, taken: Set<Seq<char>>, x: int, e: EventV)
    requires
        0 <= x < SIM_EXT_COUNT,
        similar_warnings(files, sim_exts()[x], taken).contains(e),
    ensures
        all_warnings(files, taken, SIM_EXT_COUNT as int).contains(e),
{
    lemma_all_warnings(files, taken, SIM_EXT_COUNT as int, x, e);
}

// -------------------------------------------------------------------------------- empty

/// The entries of a root that can be listed.
pub open spec fn listed(root: Entry) -> Seq<Entry> {
    match root.children {
        Some(c) => c@,
        None => Seq::empty(),
    }
}

/// A root that cannot be listed is warned of and changes nothing else.
pub proof fn law_unreadable_root(w: Walk, root: Entry, ignore: Set<Seq<char>>)
    requires
        root.children is None,
    ensures
        root_kept(w, root, ignore).kept == w.kept,
        root_kept(w, root, ignore).ev == w.ev.push(EventV::Warn(unreadable_text(root))),
{
}

/// What is kept of several roots: every directory that is kept is empty all the way down in
/// one of them, and every empty file directly in one of them and every directory in it that
/// holds nothing but directories is kept, as long as there is room.
pub proof fn law_empty_roots(w: Walk, roots: Seq<Entry>, n: int, ignore: Set<Seq<char>>, r: int, i: int)
    requires
        0 <= n <= roots.len(),
    ensures
        ({
            let now = roots_kept(w, roots, n, ignore);
            &&& added_to(w.kept.files, now.kept.files)
            &&& added_to(w.kept.dirs, now.kept.dirs)
            &&& w.kept.truncated ==> now.kept.truncated
            &&& forall|k: int|
                w.kept.dirs.len() <= k < now.kept.dirs.len() ==> bare_in(
                    roots,
                    n,
                    ignore,
                    #[trigger] now.kept.dirs[k],
                )
            &&& 0 <= r < n && 0 <= i < listed(roots[r]).len() && !now.kept.truncated ==> {
                let e = listed(roots[r])[i];
                &&& e.kind == Kind::File && e.size == 0 ==> now.kept.files.contains(e.path@)
                &&& e.kind == Kind::Dir && !e.reparse && bare_tree(e, ignore) && !is_ignored(
                    e.path@,
                    ignore,
                ) ==> now.kept.dirs.contains(e.path@)
            }
        }),
    decreases n,
{
    if n > 0 {
        law_empty_roots(w, roots, n - 1, ignore, r, i);
        let mid = roots_kept(w, roots, n - 1, ignore);
        let now = roots_kept(w, roots, n, ignore);
        let root = roots[n - 1];
        match root.children {
            None => {
                assert(now.kept == mid.kept);
                assert forall|k: int|
                    w.kept.dirs.len() <= k < now.kept.dirs.len() implies bare_in(
                    roots,
                    n,
                    ignore,
                    #[trigger] now.kept.dirs[k],
                ) by {
                    assert(bare_in(roots, n - 1, ignore, mid.kept.dirs[k]));
                    lemma_bare_in(roots, n, ignore, mid.kept.dirs[k]);
                }
            },
            Some(c) => {
                let files = root_files(mid, c@, c@.len() as int);
                law_root_files(mid, c@, c@.len() as int, i);
                law_root_dirs(files, c@, c@.len() as int, ignore, i);
                assert(now == root_dirs(files, c@, c@.len() as int, ignore));
                assert forall|k: int|
                    w.kept.dirs.len() <= k < now.kept.dirs.len() implies bare_in(
                    roots,
                    n,
                    ignore,
                    #[trigger] now.kept.dirs[k],
                ) by {
                    if k < mid.kept.dirs.len() {
                        assert(now.kept.dirs[k] == mid.kept.dirs[k]);
                        assert(bare_in(roots, n - 1, ignore, mid.kept.dirs[k]));
                        lemma_bare_in(roots, n, ignore, mid.kept.dirs[k]);
                    } else {
                        assert(bare_at(c@, c@.len() as int, ignore, now.kept.dirs[k]));
                        assert(listed(roots[n - 1]) == c@);
                    }
                }
                if 0 <= r < n && 0 <= i < listed(roots[r]).len() && !now.kept.truncated {
                    let e = listed(roots[r])[i];
                    if r < n - 1 {
                        if mid.kept.files.contains(e.path@) {
                            let j = choose|j: int|
                                0 <= j < mid.kept.files.len() && mid.kept.files[j] == e.path@;
                            assert(files.kept.files[j] == e.path@);
                            assert(now.kept.files[j] == e.path@);
                        }
                        if mid.kept.dirs.contains(e.path@) {
                            let j = choose|j: int|
                                0 <= j < mid.kept.dirs.len() && mid.kept.dirs[j] == e.path@;
                            assert(now.kept.dirs[j] == e.path@);
                        }
                    } else {
                        assert(listed(roots[r]) == c@);
                        if files.kept.files.contains(e.path@) {
                            let j = choose|j: int|
                                0 <= j < files.kept.files.len() && files.kept.files[j] == e.path@;
                            assert(now.kept.files[j] == e.path@);
                        }
                    }
                }
            },
        }
    }
}

/// Whether a directory is empty all the way down in one of the first `n` roots.
pub open spec fn bare_in(roots: Seq<Entry>, n: int, ignore: Set<Seq<char>>, p: Seq<char>) -> bool {
    exists|r: int|
        0 <= r < n && bare_at(
            listed(#[trigger] roots[r]),
            listed(roots[r]).len() as int,
            ignore,
            p,
        )
}

proof fn lemma_bare_in(roots: Seq<Entry>, n: int, ignore: Set<Seq<char>>, p: Seq<char>)
    requires
        bare_in(roots, n - 1, ignore, p),
    ensures
        bare_in(roots, n, ignore, p),
{
    let r = choose|r: int|
        0 <= r < n - 1 && bare_at(
            listed(#[trigger] roots[r]),
            listed(roots[r]).len() as int,
            ignore,
            p,
        );
    assert(0 <= r < n && bare_at(listed(roots[r]), listed(roots[r]).len() as int, ignore, p));
}

/// Every file and every outermost directory that was kept is reported as empty, a search
/// that was cut off says so at the end, and the last thing reported is that all is done.
pub proof fn law_empty_report(roots: Seq<Entry>, ignore: Set<Seq<char>>, i: int)
    ensures
        ({
            let none = Walk {
                kept: Kept {
                    files: Seq::empty(),
                    dirs: Seq::empty(),
                    kept: 0,
                    truncated: false,
                    cap: 200_000,
                },
                ev: Seq::empty(),
            };
            let w = roots_kept(none, roots, roots.len() as int, ignore);
            let dirs = folded(w.kept.dirs, w.kept.dirs.len() as int);
            let report = empty_report(roots, ignore);
            &&& report.last() == EventV::Progress(100)
            &&& w.kept.truncated ==> report[report.len() - 2] == EventV::Truncated
            &&& 0 <= i < w.kept.files.len() ==> report.contains(
                item_event("emptyfile"@, w.kept.files[i], 0, Seq::empty()),
            )
            &&& 0 <= i < dirs.len() ==> report.contains(
                item_event("emptyfolder"@, dirs[i].0, 0, seq![("nested"@, dec(dirs[i].1))]),
            )
            &&& report.len() == w.ev.len() + w.kept.files.len() + dirs.len() + (
            if w.kept.truncated {
                2int
            } else {
                1
            })
        }),
{
    assert(MAX_SCAN_ENTRIES == 200_000);
    let none = Walk {
        kept: Kept {
            files: Seq::empty(),
            dirs: Seq::empty(),
            kept: 0,
            truncated: false,
            cap: 200_000,
        },
        ev: Seq::empty(),
    };
    let w = roots_kept(none, roots, roots.len() as int, ignore);
    let dirs = folded(w.kept.dirs, w.kept.dirs.len() as int);
    let report = empty_report(roots, ignore);
    let end = if w.kept.truncated {
        seq![EventV::Truncated]
    } else {
        Seq::empty()
    };
    assert(report == w.ev + file_items(w.kept.files) + dir_items(dirs) + end + seq![
        EventV::Progress(100),
    ]);
    if 0 <= i < w.kept.files.len() {
        assert(report[w.ev.len() + i] == file_items(w.kept.files)[i]);
    }
    if 0 <= i < dirs.len() {
        assert(report[w.ev.len() + w.kept.files.len() + i] == dir_items(dirs)[i]);
    }
}

// -------------------------------------------------------------------------------- sizes

/// The size of every path that was asked for is told, but of what is neither a file nor a
/// directory, and nothing more.
pub proof fn law_sizes_in_order(paths: Seq<(String, Option<Entry>)>, n: int, i: int)
    requires
        0 <= n <= paths.len(),
    ensures
        0 <= i < n && size_event(paths[i].0@, paths[i].1) is Some ==> size_events(paths, n).contains(
            size_event(paths[i].0@, paths[i].1)->0,
        ),
        size_events(paths, n).len() <= n,
        (forall|k: int|
            0 <= k < n ==> size_event((#[trigger] paths[k]).0@, paths[k].1) is Some) ==> size_events(
            paths,
            n,
        ).len() == n,
    decreases n,
{
    if n > 0 {
        law_sizes_in_order(paths, n - 1, i);
        let before = size_events(paths, n - 1);
        let all = size_events(paths, n);
        if 0 <= i < n - 1 && size_event(paths[i].0@, paths[i].1) is Some {
            let e = size_event(paths[i].0@, paths[i].1)->0;
            let j = choose|j: int| 0 <= j < before.len() && before[j] == e;
            assert(all[j] == e);
        }
        if size_event(paths[n - 1].0@, paths[n - 1].1) is Some {
            assert(all[all.len() - 1] == size_event(paths[n - 1].0@, paths[n - 1].1)->0);
        }
    }
}

// ---------------------------------------------------------------------------- protection

proof fn lemma_lower_texts(list: Seq<JsonV>, n: int, i: int)
    requires
        0 <= i < n <= list.len(),
        list[i] is Str,
    ensures
        lower_texts(list, n).contains(ascii_lowercase(list[i]->Str_0)),
    decreases n,
{
    let all = lower_texts(list, n);
    let before = lower_texts(list, n - 1);
    if i == n - 1 {
        assert(all.last() == ascii_lowercase(list[i]->Str_0));
    } else {
        lemma_lower_texts(list, n - 1, i);
        let j = choose|j: int|
            0 <= j < before.len() && before[j] == ascii_lowercase(list[i]->Str_0);
        assert(all[j] == before[j]);
    }
}

/// What is protected goes by the lists that are given, each text of them in lower case, and
/// by the usual ones where none can be read.
pub proof fn law_given_roots(text: Seq<char>, env: Env, i: int)
    ensures
        roots_of(None, env) == default_roots(env),
        json_text(text) is Err ==> roots_of(Some(text), env) == default_roots(env),
        json_text(text) matches Ok(v) ==> {
            let r = roots_of(Some(text), env);
            &&& array_member(v, "subtree"@) matches Some(a) ==> 0 <= i < a.len() && a[i] is Str
                ==> r.subtree.contains(ascii_lowercase(a[i]->Str_0))
            &&& array_member(v, "exact"@) matches Some(a) ==> 0 <= i < a.len() && a[i] is Str
                ==> r.exact.contains(ascii_lowercase(a[i]->Str_0))
            &&& array_member(v, "anyDrive"@) matches Some(a) ==> 0 <= i < a.len() && a[i] is Str
                ==> r.any_drive.contains(ascii_lowercase(a[i]->Str_0))
        },
{
    match json_text(text) {
        Ok(v) => {
            match array_member(v, "subtree"@) {
                Some(a) => {
                    if 0 <= i < a.len() && a[i] is Str {
                        lemma_lower_texts(a, a.len() as int, i);
                    }
                },
                None => {},
            }
            match array_member(v, "exact"@) {
                Some(a) => {
                    if 0 <= i < a.len() && a[i] is Str {
                        lemma_lower_texts(a, a.len() as int, i);
                    }
                },
                None => {},
            }
            match array_member(v, "anyDrive"@) {
                Some(a) => {
                    if 0 <= i < a.len() && a[i] is Str {
                        lemma_lower_texts(a, a.len() as int, i);
                    }
                },
                None => {},
            }
        },
        Err(_) => {},
    }
}

/// Everything at or below a directory of the given list of subtrees is protected.
pub proof fn law_given_subtree(text: Seq<char>, v: JsonV, a: Seq<JsonV>, env: Env, i: int, rest: Seq<char>)
    requires
        json_text(text) == Ok::<JsonV, Seq<char>>(v),
        array_member(v, "subtree"@) == Some(a),
        0 <= i < a.len(),
        a[i] is Str,
    ensures
        protected_norm(ascii_lowercase(a[i]->Str_0), roots_of(Some(text), env)),
        protected_norm(
            ascii_lowercase(a[i]->Str_0) + "\\"@ + rest,
            roots_of(Some(text), env),
        ),
{
    law_given_roots(text, env, i);
    let r = roots_of(Some(text), env);
    let t = ascii_lowercase(a[i]->Str_0);
    let k = choose|k: int| 0 <= k < r.subtree.len() && r.subtree[k] == t;
    law_subtree(t, rest, r, k);
    law_subtree(t + "\\"@ + rest, rest, r, k);
}

// ------------------------------------------------------------------------------- memory

/// As many processors are read as there are whole records, and 64 at most.
pub proof fn law_processors(len: u32)
    ensures
        0 <= cpu_count(len) <= 64,
        cpu_count(len) * 48 <= len,
        cpu_count(len) < 64 ==> len < (cpu_count(len) + 1) * 48,
{
    assert(CPU_MAX == 64 && CPU_RECORD == 48);
}

/// Memory is freed exactly where areas are named and each of them is known; else nothing is,
/// and the process ends with two.
pub proof fn law_memory_is_asked_for(
    args: Seq<Seq<char>>,
    before: u64,
    after: u64,
    statuses: Seq<i32>,
)
    ensures
        mem_clean_line(args, before, after, statuses).0 == 0 <==> (items_in(args) matches Some(w)
            && mem_refusal(w) is None),
        mem_clean_line(args, before, after, statuses).0 == 0 || mem_clean_line(
            args,
            before,
            after,
            statuses,
        ).0 == 2,
        items_in(args) is None ==> mem_clean_line(args, before, after, statuses).1
            == "缺少 --items"@,
{
}

} // verus!
