//! What a scan for cleaning plans to delete, and what it tells of it.

use crate::cleanup_scan::{
    blocked_by, blocking, detect_hit, detected, dir_line, fields, files_line, first_existing,
    group_items, groups_items, in_use, item_line, last_with_id, lockers, locked_lines, locked_line,
    lockers_of, plan_line, reg_line, reg_measure, reports, rule_report, setting_of, string_array,
    subgroup_items, target, word,
};
use crate::deletable::{
    array_or_empty, entries_found, entry_found, excludes, file_found, left_out, long_path, opts_of,
    stats_at, total_size, wanted, Found, Opts,
};
use crate::json::{array_member, count_member, member, quoted, text_member, JsonV};
use crate::laws::count::{added, count};
use crate::laws::text::{
    lemma_joined_stands, lemma_stands, lemma_stands_in, lemma_stands_last, lemma_stands_on, stands,
};
use crate::laws::tree::{met, met_below, plain_dir};
use crate::rulepath::expanded;
use crate::text::{cap64, dec, joined, lowercase, without_trailing};
use crate::world::{Entry, Kind, World};
use vstd::prelude::*;

verus! {

// ------------------------------------------------------------------------- planned files

/// Whether neither limit of a plan is reached.
pub open spec fn has_room(f: Found) -> bool {
    f.files.len() < 100_000 && f.rows < 1_000_000
}

/// Whether a file is one that a file key asks for and that is not left out.
pub open spec fn asked_for(e: Entry, o: Opts) -> bool {
    wanted(e.name@, o.all, o.pattern) && !left_out(lowercase(e.path@), o.excl_dirs, o.excl_files)
}

/// A file is planned where it is asked for, was not planned before, can be opened alone or its
/// programs are closed first, and there is room; it is planned with its size. A file that is
/// not asked for changes nothing, and one that is in use is counted as such.
pub proof fn law_file_is_planned(f: Found, e: Entry, o: Opts)
    ensures
        ({
            let now = file_found(f, e, o);
            let low = lowercase(e.path@);
            let free = e.openable || (o.snapshot && o.skip_lock);
            &&& !asked_for(e, o) ==> now == f
            &&& asked_for(e, o) && free && !f.seen.contains(low) && has_room(f) ==> {
                &&& now.files == f.files.push((long_path(e.path@, e.long), e.size))
                &&& now.size == f.size + e.size
                &&& now.rows == f.rows + 1
                &&& now.locked == f.locked
                &&& now.seen == f.seen.insert(low)
                &&& now.truncated == f.truncated
            }
            &&& asked_for(e, o) && free && !f.seen.contains(low) && !has_room(f) ==> {
                &&& now.files == f.files
                &&& now.size == f.size
                &&& now.truncated
            }
            &&& asked_for(e, o) && !free && !f.seen.contains(low) ==> {
                &&& now.files == f.files
                &&& now.size == f.size
                &&& now.rows == f.rows
                &&& now.locked == f.locked + 1
            }
            &&& f.seen.contains(low) ==> {
                &&& now.files == f.files
                &&& now.size == f.size
                &&& now.rows == f.rows
            }
        }),
{
}

/// What lies below a directory that a rule leaves out, and a file that it leaves out, is left
/// out; nothing else is.
pub proof fn law_left_out(
    low: Seq<char>,
    rest: Seq<char>,
    dirs: Seq<Seq<char>>,
    files: Seq<Seq<char>>,
    k: int,
)
    ensures
        0 <= k < dirs.len() ==> left_out(dirs[k] + "\\"@ + rest, dirs, files),
        0 <= k < files.len() ==> left_out(files[k], dirs, files),
        left_out(low, dirs, files) ==> files.contains(low) || exists|i: int|
            0 <= i < dirs.len() && (#[trigger] dirs[i]).len() < low.len() && low.take(
                dirs[i].len() as int,
            ) == dirs[i] && low[dirs[i].len() as int] == '\\',
{
    reveal_strlit("\\");
    if 0 <= k < dirs.len() {
        assert((dirs[k] + "\\"@).is_prefix_of(dirs[k] + "\\"@ + rest));
    }
    if left_out(low, dirs, files) && !files.contains(low) {
        let i = choose|i: int| 0 <= i < dirs.len() && (#[trigger] dirs[i] + "\\"@).is_prefix_of(low);
        let d = dirs[i];
        let p = d + "\\"@;
        assert(p.len() == d.len() + 1);
        assert(low.subrange(0, p.len() as int) =~= p);
        assert(low[d.len() as int] == p[d.len() as int]);
        assert forall|j: int| 0 <= j < d.len() implies low[j] == d[j] by {
            assert(low.subrange(0, p.len() as int)[j] == p[j]);
        }
        assert(low.take(d.len() as int) =~= d);
        assert(dirs[i].len() < low.len());
    }
}

/// Every exclude key of a rule keeps its directory, or its file, out.
pub proof fn law_excludes(keys: Seq<JsonV>, n: int, w: World, k: int)
    requires
        0 <= k < n <= keys.len(),
        text_member(keys[k], "path"@) is Some,
        text_member(keys[k], "type"@) != Some("reg"@),
    ensures
        ({
            let low = lowercase(
                without_trailing(expanded(text_member(keys[k], "path"@)->0, w.env), '\\', '\\'),
            );
            &&& low.len() > 0 && text_member(keys[k], "type"@) == Some("dir"@) ==> excludes(
                keys,
                n,
                w,
            ).0.contains(low)
            &&& low.len() > 0 && text_member(keys[k], "type"@) != Some("dir"@) ==> excludes(
                keys,
                n,
                w,
            ).1.contains(low)
        }),
    decreases n,
{
    let low = lowercase(
        without_trailing(expanded(text_member(keys[k], "path"@)->0, w.env), '\\', '\\'),
    );
    let now = excludes(keys, n, w);
    let before = excludes(keys, n - 1, w);
    if k == n - 1 {
        if low.len() > 0 {
            if text_member(keys[k], "type"@) == Some("dir"@) {
                assert(now.0[before.0.len() as int] == low);
            } else {
                assert(now.1[before.1.len() as int] == low);
            }
        }
    } else {
        law_excludes(keys, n - 1, w, k);
        if before.0.contains(low) {
            let i = choose|i: int| 0 <= i < before.0.len() && before.0[i] == low;
            assert(now.0[i] == low);
        }
        if before.1.contains(low) {
            let i = choose|i: int| 0 <= i < before.1.len() && before.1[i] == low;
            assert(now.1[i] == low);
        }
    }
}

/// The options of a file key: its own pattern, and no going into subdirectories only where it
/// says so; files are taken while their programs run only where the rule closes those.
pub proof fn law_options(rule: JsonV, key: JsonV, w: World)
    ensures
        text_member(key, "pattern"@) matches Some(p) ==> opts_of(rule, key, w).pattern == p && (
        opts_of(rule, key, w).all <==> p.len() == 0 || p == "*"@),
        text_member(key, "pattern"@) is None ==> opts_of(rule, key, w).all,
        member(key, "recurse"@) == Some(JsonV::Bool(false)) <==> !opts_of(rule, key, w).recurse,
        opts_of(rule, key, w).skip_lock <==> count_member(rule, "restartProcesses"@) > 0,
        count_member(rule, "restartProcesses"@) > 0 ==> opts_of(rule, key, w).snapshot,
        count_member(rule, "excludeKeys"@) > 0 ==> opts_of(rule, key, w).snapshot,
{
}

/// Whether a planned file is one of the entries met that may be planned.
pub open spec fn planned_from(m: Seq<Entry>, o: Opts, x: (Seq<char>, u64)) -> bool {
    exists|i: int|
        0 <= i < m.len() && (#[trigger] m[i]).kind == Kind::File && !m[i].reparse && asked_for(
            m[i],
            o,
        ) && (m[i].openable || (o.snapshot && o.skip_lock)) && x == (
            long_path(m[i].path@, m[i].long),
            m[i].size,
        )
}

/// What a walk adds to a plan: files that it meets and that may be planned, in full where the
/// limits leave room; and the sum of the plan is the sum of its files.
pub open spec fn plan_right(f: Found, now: Found, m: Seq<Entry>, o: Opts) -> bool {
    &&& f.files.len() <= now.files.len()
    &&& forall|k: int| 0 <= k < f.files.len() ==> now.files[k] == f.files[k]
    &&& forall|k: int|
        f.files.len() <= k < now.files.len() ==> planned_from(m, o, #[trigger] now.files[k])
    &&& now.size - f.size == total_size(now.files, now.files.len() as int) - total_size(
        f.files,
        f.files.len() as int,
    )
    &&& now.rows - f.rows == now.files.len() - f.files.len()
    &&& f.truncated ==> now.truncated
    &&& f.seen.subset_of(now.seen)
}

proof fn lemma_planned_on(m: Seq<Entry>, more: Seq<Entry>, o: Opts, x: (Seq<char>, u64))
    requires
        planned_from(m, o, x),
    ensures
        planned_from(m + more, o, x),
{
    let i = choose|i: int|
        0 <= i < m.len() && (#[trigger] m[i]).kind == Kind::File && !m[i].reparse && asked_for(
            m[i],
            o,
        ) && (m[i].openable || (o.snapshot && o.skip_lock)) && x == (
            long_path(m[i].path@, m[i].long),
            m[i].size,
        );
    assert((m + more)[i] == m[i]);
}

proof fn lemma_planned_under(m: Seq<Entry>, more: Seq<Entry>, o: Opts, x: (Seq<char>, u64))
    requires
        planned_from(more, o, x),
    ensures
        planned_from(m + more, o, x),
{
    let i = choose|i: int|
        0 <= i < more.len() && (#[trigger] more[i]).kind == Kind::File && !more[i].reparse
            && asked_for(more[i], o) && (more[i].openable || (o.snapshot && o.skip_lock)) && x == (
            long_path(more[i].path@, more[i].long),
            more[i].size,
        );
    assert((m + more)[m.len() + i] == more[i]);
}

proof fn lemma_sum_front(a: Seq<(Seq<char>, u64)>, b: Seq<(Seq<char>, u64)>, n: int)
    requires
        0 <= n <= a.len(),
        n <= b.len(),
        forall|k: int| 0 <= k < n ==> a[k] == b[k],
    ensures
        total_size(a, n) == total_size(b, n),
    decreases n,
{
    if n > 0 {
        lemma_sum_front(a, b, n - 1);
    }
}

/// A walk over a directory plans nothing but files that lie in it, or below it, that are asked
/// for and can be deleted; and the size it tells is theirs.
pub proof fn law_walk_plans(f: Found, list: Seq<Entry>, n: int, depth: nat, o: Opts)
    requires
        0 <= n <= list.len(),
    ensures
        plan_right(f, entries_found(f, list, n, depth, o), met(list, n, plain_dir()), o),
        !o.recurse ==> plan_right(f, entries_found(f, list, n, depth, o), list.take(n), o),
    decreases list, n,
{
    let now = entries_found(f, list, n, depth, o);
    let m = met(list, n, plain_dir());
    if n > 0 {
        law_walk_plans(f, list, n - 1, depth, o);
        let mid = entries_found(f, list, n - 1, depth, o);
        let e = list[n - 1];
        let m0 = met(list, n - 1, plain_dir());
        let mb = met_below(e, plain_dir());
        if !e.reparse && e.kind == Kind::Dir && e.children is Some {
            law_walk_plans(mid, e.children->0@, e.children->0@.len() as int, depth + 1, o);
        }
        assert(now == entry_found(mid, e, depth, o));
        assert(m == m0.push(e) + mb);
        assert(m0.push(e) =~= m0 + seq![e]);
        assert(list.take(n) =~= list.take(n - 1) + seq![e]);
        if !e.reparse && e.kind == Kind::File {
            law_file_is_planned(mid, e, o);
            lemma_sum_front(now.files, mid.files, mid.files.len() as int);
            if now.files.len() > mid.files.len() {
                let x = now.files[mid.files.len() as int];
                assert(seq![e][0] == e);
                assert(planned_from(seq![e], o, x));
                lemma_planned_under(m0, seq![e], o, x);
                lemma_planned_on(m0 + seq![e], mb, o, x);
                lemma_planned_under(list.take(n - 1), seq![e], o, x);
            }
        }
        assert forall|k: int| f.files.len() <= k < now.files.len() implies planned_from(
            m,
            o,
            #[trigger] now.files[k],
        ) by {
            if k < mid.files.len() {
                assert(now.files[k] == mid.files[k]);
                lemma_planned_on(m0, seq![e], o, mid.files[k]);
                lemma_planned_on(m0 + seq![e], mb, o, mid.files[k]);
            } else if e.kind == Kind::Dir {
                lemma_planned_under(m0.push(e), mb, o, now.files[k]);
            }
        }
        if !o.recurse {
            assert forall|k: int| f.files.len() <= k < now.files.len() implies planned_from(
                list.take(n),
                o,
                #[trigger] now.files[k],
            ) by {
                if k < mid.files.len() {
                    assert(now.files[k] == mid.files[k]);
                    lemma_planned_on(list.take(n - 1), seq![e], o, mid.files[k]);
                }
            }
        }
    }
}

/// Whether a file was planned, or its path before, or the limit left no room.
pub open spec fn accounted(now: Found, e: Entry) -> bool {
    now.seen.contains(lowercase(e.path@)) || now.truncated
}

/// A walk into subdirectories passes over no file that it meets, is asked for and can be opened
/// alone, but for the limit; in a snapshot the depth is limited too.
pub proof fn law_walk_passes_none_over(f: Found, list: Seq<Entry>, n: int, depth: nat, o: Opts)
    requires
        0 <= n <= list.len(),
        o.recurse,
        !o.snapshot,
    ensures
        ({
            let now = entries_found(f, list, n, depth, o);
            let m = met(list, n, plain_dir());
            forall|i: int|
                0 <= i < m.len() && (#[trigger] m[i]).kind == Kind::File && !m[i].reparse
                    && asked_for(m[i], o) && m[i].openable ==> accounted(now, m[i])
        }),
    decreases list, n,
{
    let now = entries_found(f, list, n, depth, o);
    let m = met(list, n, plain_dir());
    if n > 0 {
        law_walk_passes_none_over(f, list, n - 1, depth, o);
        law_walk_plans(f, list, n - 1, depth, o);
        let mid = entries_found(f, list, n - 1, depth, o);
        let e = list[n - 1];
        let m0 = met(list, n - 1, plain_dir());
        let mb = met_below(e, plain_dir());
        if !e.reparse && e.kind == Kind::Dir && e.children is Some {
            law_walk_passes_none_over(mid, e.children->0@, e.children->0@.len() as int, depth + 1, o);
            law_walk_plans(mid, e.children->0@, e.children->0@.len() as int, depth + 1, o);
        }
        assert(now == entry_found(mid, e, depth, o));
        assert(mid.seen.subset_of(now.seen) && (mid.truncated ==> now.truncated));
        assert forall|i: int|
            0 <= i < m.len() && (#[trigger] m[i]).kind == Kind::File && !m[i].reparse && asked_for(
                m[i],
                o,
            ) && m[i].openable implies accounted(now, m[i]) by {
            if i < m0.len() {
                assert(m[i] == m0[i]);
            } else if i == m0.len() {
                assert(m[i] == e);
                law_file_is_planned(mid, e, o);
            } else {
                assert(m[i] == mb[i - m0.len() - 1]);
            }
        }
    }
}

// --------------------------------------------------------------------------- detection

/// With detection entries a rule applies where one of them is found, and only there; one
/// without them, and without a path, applies always.
pub proof fn law_detected(rule: JsonV, w: World, k: int)
    requires
        array_member(rule, "detect"@) is Some,
        count_member(rule, "detect"@) > 0,
    ensures
        0 <= k < array_member(rule, "detect"@)->0.len() && detect_hit(
            array_member(rule, "detect"@)->0[k],
            w,
        ) ==> detected(rule, w),
        (forall|i: int|
            0 <= i < array_member(rule, "detect"@)->0.len() ==> !detect_hit(
                #[trigger] array_member(rule, "detect"@)->0[i],
                w,
            )) ==> !detected(rule, w),
{
    let d = array_or_empty(rule, "detect"@);
    if 0 <= k < d.len() && detect_hit(d[k], w) {
        assert(detected(rule, w));
    }
}

/// A detection entry finds a directory or file that is there and a registry key that is there,
/// and nothing without a path.
pub proof fn law_detection_entry(c: JsonV, w: World)
    requires
        text_member(c, "path"@) is Some,
    ensures
        ({
            let p = text_member(c, "path"@)->0;
            let full = expanded(p, w.env);
            &&& p.len() == 0 ==> !detect_hit(c, w)
            &&& p.len() > 0 && text_member(c, "type"@) == Some("reg"@) ==> detect_hit(c, w)
                == (w.key_at(full) is Some)
            &&& p.len() > 0 && text_member(c, "type"@) != Some("reg"@) && !full.contains('*')
                ==> detect_hit(c, w) == w.has(full)
        }),
{
}

/// The programs that keep an item from being cleaned are exactly those that it wants closed
/// and that run.
pub proof fn law_blocked(names: Seq<JsonV>, n: int, running: Seq<Seq<char>>, t: Seq<char>)
    requires
        0 <= n <= names.len(),
    ensures
        blocking(names, n, running).contains(t) <==> t.len() > 0 && running.contains(lowercase(t))
            && names.take(n).contains(JsonV::Str(t)),
    decreases n,
{
    let now = blocking(names, n, running);
    if n > 0 {
        law_blocked(names, n - 1, running, t);
        let before = blocking(names, n - 1, running);
        let front = names.take(n - 1);
        assert(names.take(n) =~= front.push(names[n - 1]));
        if before.contains(t) {
            let k = choose|k: int| 0 <= k < before.len() && before[k] == t;
            assert(now[k] == t);
            let j = choose|j: int| 0 <= j < front.len() && front[j] == JsonV::Str(t);
            assert(names.take(n)[j] == JsonV::Str(t));
        }
        if names[n - 1] == JsonV::Str(t) {
            assert(names.take(n)[n - 1] == JsonV::Str(t));
            if t.len() > 0 && running.contains(lowercase(t)) {
                assert(now[before.len() as int] == t);
            }
        }
        if now.contains(t) && !before.contains(t) {
            let k = choose|k: int| 0 <= k < now.len() && now[k] == t;
            if k < before.len() {
                assert(before[k] == t);
            }
        }
        if names.take(n).contains(JsonV::Str(t)) && names[n - 1] != JsonV::Str(t) {
            let j = choose|j: int| 0 <= j < n && names.take(n)[j] == JsonV::Str(t);
            assert(front[j] == JsonV::Str(t));
        }
    } else {
        assert(names.take(0) =~= Seq::empty());
    }
}

/// What a registry key counts for: nothing where it is not there, one where it names a value,
/// else itself and all its values and subkeys.
pub open spec fn reg_counts(keys: Seq<JsonV>, w: World) -> spec_fn(int) -> int {
    |i: int|
        match text_member(keys[i], "path"@) {
            None => 0,
            Some(p) => match w.key_at(expanded(p, w.env)) {
                None => 0,
                Some(k) => if text_member(keys[i], "value"@) is Some && text_member(
                    keys[i],
                    "value"@,
                )->0.len() > 0 {
                    1
                } else {
                    match k.counts {
                        Some((a, b)) => 1 + a + b,
                        None => 1,
                    }
                },
            },
        }
}

/// The keys that are there.
pub open spec fn reg_there(keys: Seq<JsonV>, w: World) -> spec_fn(int) -> bool {
    |i: int| text_member(keys[i], "path"@) is Some && w.key_at(
        expanded(text_member(keys[i], "path"@)->0, w.env),
    ) is Some
}

/// What would go from the registry is what each key counts for, together, and an item is there
/// where one of its keys is.
pub proof fn law_registry_is_measured(keys: Seq<JsonV>, n: int, w: World)
    requires
        0 <= n <= keys.len(),
    ensures
        reg_measure(keys, n, w).1 == added(n, reg_counts(keys, w)),
        reg_measure(keys, n, w).0 <==> count(n, reg_there(keys, w)) > 0,
    decreases n,
{
    if n > 0 {
        law_registry_is_measured(keys, n - 1, w);
    }
}

// -------------------------------------------------------------------------- told items

/// Every member of an item stands in its line.
pub proof fn lemma_field_told(list: Seq<(Seq<char>, Seq<char>)>, k: int)
    requires
        0 <= k < list.len(),
    ensures
        stands(item_line(list), quoted(list[k].0) + ":"@ + list[k].1),
{
    let f = fields(list);
    lemma_joined_stands(f, ","@, k);
    lemma_stands(item_line(list), "@@ITEM@@{"@, joined(f, ","@), "}"@);
    lemma_stands_in(item_line(list), joined(f, ","@), f[k]);
}

/// An item that is cleaned file by file is told with the size and the number of its files, the
/// number of those in use, the programs that keep it from being cleaned, and as there where it
/// has any file; and where files were left out, that is told.
pub proof fn law_files_line_tells(
    id: Seq<char>,
    rule: JsonV,
    blocked: Seq<Seq<char>>,
    size: nat,
    n: nat,
    locked: nat,
    truncated: bool,
)
    requires
        size <= u64::MAX,
        locked <= u64::MAX,
    ensures
        ({
            let line = files_line(id, rule, blocked, size, n, locked, truncated);
            &&& stands(line, quoted("id"@) + ":"@ + quoted(id))
            &&& stands(line, quoted("size"@) + ":"@ + dec(size))
            &&& stands(line, quoted("fileCount"@) + ":"@ + dec(n))
            &&& stands(line, quoted("lockedCount"@) + ":"@ + dec(locked))
            &&& n > 0 ==> stands(line, quoted("exists"@) + ":"@ + "true"@)
            &&& n == 0 ==> stands(line, quoted("exists"@) + ":"@ + "false"@)
            &&& stands(line, quoted("blockedBy"@) + ":"@ + string_array(blocked))
            &&& truncated ==> stands(line, quoted("filesTruncated"@) + ":"@ + "true"@)
        }),
{
    let shown = crate::cleanup_scan::shown_path(rule, "fileKeys"@);
    let head = seq![
        ("id"@, quoted(id)),
        ("name"@, crate::cleanup_scan::quoted_or_null(text_member(rule, "name"@))),
        ("configuredPath"@, quoted(shown)),
        ("path"@, quoted(shown)),
        ("pathSource"@, quoted("rules"@)),
        ("pathCandidates"@, "[]"@),
        ("autoPath"@, quoted(""@)),
        ("autoSize"@, "0"@),
        ("size"@, dec(cap64(size))),
        ("fileCount"@, dec(n)),
        ("lockedCount"@, dec(cap64(locked))),
        ("risk"@, crate::cleanup_scan::quoted_or_null(text_member(rule, "risk"@))),
        ("exists"@, word(n > 0)),
        ("blockedBy"@, string_array(blocked)),
    ];
    let list = if truncated {
        head.push(("filesTruncated"@, "true"@))
    } else {
        head
    };
    lemma_field_told(list, 0);
    lemma_field_told(list, 8);
    lemma_field_told(list, 9);
    lemma_field_told(list, 10);
    lemma_field_told(list, 12);
    lemma_field_told(list, 13);
    if truncated {
        lemma_field_told(list, 14);
    }
}

/// An item of the registry is told with what would go, and as there where one of its keys is.
pub proof fn law_registry_line_tells(id: Seq<char>, rule: JsonV, blocked: Seq<Seq<char>>, w: World)
    ensures
        ({
            let keys = array_or_empty(rule, "regKeys"@);
            let n = keys.len() as int;
            let line = reg_line(id, rule, blocked, w);
            &&& stands(line, quoted("id"@) + ":"@ + quoted(id))
            &&& added(n, reg_counts(keys, w)) <= u64::MAX ==> stands(
                line,
                quoted("regCount"@) + ":"@ + dec(added(n, reg_counts(keys, w)) as nat),
            )
            &&& count(n, reg_there(keys, w)) > 0 ==> stands(
                line,
                quoted("exists"@) + ":"@ + "true"@,
            )
            &&& count(n, reg_there(keys, w)) == 0 ==> stands(
                line,
                quoted("exists"@) + ":"@ + "false"@,
            )
            &&& stands(line, quoted("blockedBy"@) + ":"@ + string_array(blocked))
        }),
{
    let keys = array_or_empty(rule, "regKeys"@);
    law_registry_is_measured(keys, keys.len() as int, w);
    let m = reg_measure(keys, keys.len() as int, w);
    let shown = crate::cleanup_scan::shown_path(rule, "regKeys"@);
    let list = seq![
        ("id"@, quoted(id)),
        ("name"@, crate::cleanup_scan::quoted_or_null(text_member(rule, "name"@))),
        ("configuredPath"@, quoted(shown)),
        ("path"@, quoted(shown)),
        ("pathSource"@, quoted("rules"@)),
        ("pathCandidates"@, "[]"@),
        ("autoPath"@, quoted(""@)),
        ("autoSize"@, "0"@),
        ("size"@, "null"@),
        ("fileCount"@, "0"@),
        ("regCount"@, dec(cap64(m.1))),
        ("risk"@, crate::cleanup_scan::quoted_or_null(text_member(rule, "risk"@))),
        ("exists"@, word(m.0)),
        ("blockedBy"@, string_array(blocked)),
    ];
    lemma_field_told(list, 0);
    lemma_field_told(list, 10);
    lemma_field_told(list, 12);
    lemma_field_told(list, 13);
}

/// An item that is one directory is told with the directory that is looked at, whether it is
/// there, and the size of what can be deleted in it, none where it cannot be listed.
pub proof fn law_directory_line_tells(
    id: Seq<char>,
    rule: JsonV,
    blocked: Seq<Seq<char>>,
    evaluated: Seq<char>,
    t: crate::cleanup_scan::Target,
    w: World,
)
    ensures
        ({
            let line = dir_line(id, rule, blocked, evaluated, t, w);
            let st = stats_at(w, t.path);
            &&& stands(line, quoted("id"@) + ":"@ + quoted(id))
            &&& stands(line, quoted("path"@) + ":"@ + quoted(t.path))
            &&& st.ok ==> stands(line, quoted("size"@) + ":"@ + dec(st.size as nat))
            &&& !st.ok ==> stands(line, quoted("size"@) + ":"@ + "null"@)
            &&& stands(line, quoted("lockedCount"@) + ":"@ + dec(st.locked as nat))
            &&& w.has(t.path) ==> stands(line, quoted("exists"@) + ":"@ + "true"@)
            &&& !w.has(t.path) ==> stands(line, quoted("exists"@) + ":"@ + "false"@)
            &&& t.found ==> stands(line, quoted("pathSource"@) + ":"@ + quoted("auto"@))
            &&& !t.found ==> stands(line, quoted("pathSource"@) + ":"@ + quoted("configured"@))
            &&& stands(line, quoted("blockedBy"@) + ":"@ + string_array(blocked))
        }),
{
    let st = stats_at(w, t.path);
    let size = if st.ok {
        dec(st.size as nat)
    } else {
        "null"@
    };
    let list = seq![
        ("id"@, quoted(id)),
        ("name"@, crate::cleanup_scan::quoted_or_null(text_member(rule, "name"@))),
        ("configuredPath"@, quoted(evaluated)),
        ("path"@, quoted(t.path)),
        (
            "pathSource"@,
            quoted(
                if t.found {
                    "auto"@
                } else {
                    "configured"@
                },
            ),
        ),
        ("pathCandidates"@, string_array(t.candidates)),
        ("autoPath"@, quoted(t.auto)),
        (
            "autoSize"@,
            if t.auto.len() > 0 {
                size
            } else {
                "0"@
            },
        ),
        ("size"@, size),
        ("lockedCount"@, dec(st.locked as nat)),
        ("risk"@, crate::cleanup_scan::quoted_or_null(text_member(rule, "risk"@))),
        ("exists"@, word(w.has(t.path))),
        ("blockedBy"@, string_array(blocked)),
    ];
    assert(dir_line(id, rule, blocked, evaluated, t, w) == item_line(list));
    lemma_field_told(list, 0);
    lemma_field_told(list, 3);
    lemma_field_told(list, 4);
    lemma_field_told(list, 8);
    lemma_field_told(list, 9);
    lemma_field_told(list, 11);
    lemma_field_told(list, 12);
}

/// Of every planned file its item, its path and its size are told.
pub proof fn law_plan_line_tells(id: Seq<char>, path: Seq<char>, size: u64)
    ensures
        stands(plan_line(id, path, size), "@@PLANFILE@@{\"id\":"@ + quoted(id) + ",\"path\":"@),
        stands(plan_line(id, path, size), ",\"path\":"@ + quoted(path) + ",\"size\":"@),
        stands(plan_line(id, path, size), ",\"size\":"@ + dec(size as nat) + "}"@),
{
    lemma_stands_on();
    let a = "@@PLANFILE@@{\"id\":"@ + quoted(id);
    lemma_stands(a + ",\"path\":"@, Seq::empty(), a + ",\"path\":"@, Seq::empty());
    lemma_stands_last(a, ",\"path\":"@, quoted(path), ",\"size\":"@);
    lemma_stands_last(a + ",\"path\":"@ + quoted(path), ",\"size\":"@, dec(size as nat), "}"@);
}

/// What a rule with file keys reports: its line with what was found, then one line for each
/// planned file, and the plan grows by as many.
pub proof fn law_files_are_reported(
    id: Seq<char>,
    rule: JsonV,
    configured: JsonV,
    running: Seq<Seq<char>>,
    rows: nat,
    w: World,
    k: int,
)
    requires
        text_member(rule, "special"@) != Some("dism"@),
        detected(rule, w),
        count_member(rule, "fileKeys"@) > 0,
    ensures
        ({
            let f = crate::deletable::rule_found(rule, rows, w);
            let r = rule_report(id, rule, configured, running, rows, w);
            &&& r.out.len() == 1 + f.files.len()
            &&& 0 <= k < f.files.len() ==> r.out[k + 1] == plan_line(id, f.files[k].0, f.files[k].1)
            &&& r.out[0] == files_line(
                id,
                rule,
                blocked_by(rule, running),
                f.size,
                f.files.len(),
                f.locked,
                f.truncated,
            )
            &&& r.rows == f.rows
        }),
{
}

// ------------------------------------------------------------------------ where to look

/// A directory that the user has confirmed is looked at where it is there, whatever else could
/// be found; without one the path of the rule is; and only where that is missing a candidate.
pub proof fn law_where_to_look(
    id: Seq<char>,
    rule: JsonV,
    configured: JsonV,
    evaluated: Seq<char>,
    w: World,
)
    ensures
        ({
            let t = target(id, rule, configured, evaluated, w);
            let set = text_member(configured, setting_of(id));
            let own = if set is Some && set->0.len() > 0 {
                set->0
            } else {
                evaluated
            };
            &&& w.has(own) ==> t.path == own && !t.found
            &&& t.found ==> !w.has(own) && t.auto == t.path
            &&& !t.found ==> t.path == own && t.auto.len() == 0
        }),
{
}

/// The candidate that is taken is there, and none before it is.
pub proof fn law_first_candidate(list: Seq<Seq<char>>, i: int, w: World, j: int)
    requires
        0 <= i <= list.len(),
    ensures
        first_existing(list, i, w) matches Some(p) ==> w.has(p) && list.contains(p),
        i <= j < list.len() && w.has(list[j]) ==> first_existing(list, i, w) is Some,
        i < list.len() && w.has(list[i]) ==> first_existing(list, i, w) == Some(list[i]),
        i < list.len() && !w.has(list[i]) ==> first_existing(list, i, w) == first_existing(
            list,
            i + 1,
            w,
        ),
    decreases list.len() - i,
{
    if i < list.len() && !w.has(list[i]) {
        law_first_candidate(list, i + 1, w, j);
    }
}

/// Four items have a setting of their own for their directory.
pub proof fn law_settings()
    ensures
        setting_of("neteaseMusicCache"@) == "neteaseCacheDir"@,
        setting_of("wechatCache"@) == "wechatCacheDir"@,
        setting_of("douyinCache"@) == "douyinCacheDir"@,
        setting_of("qqCache"@) == "qqCacheDir"@,
{
    reveal_strlit("neteaseMusicCache");
    reveal_strlit("wechatCache");
    reveal_strlit("douyinCache");
    reveal_strlit("qqCache");
    assert("wechatCache"@[0] == 'w');
    assert("douyinCache"@[0] == 'd');
    assert("qqCache"@[0] == 'q');
    assert("neteaseMusicCache"@[0] == 'n');
}

// --------------------------------------------------------------------------- categories

/// Whether an item of a group is met: in one of its subgroups, or directly in it.
pub open spec fn in_group(g: JsonV, x: JsonV) -> bool {
    match array_member(g, "subGroups"@) {
        Some(sgs) => exists|s: int|
            0 <= s < sgs.len() && array_or_empty(#[trigger] sgs[s], "items"@).contains(x),
        None => array_or_empty(g, "items"@).contains(x),
    }
}

proof fn lemma_subgroup_items(sgs: Seq<JsonV>, n: int, x: JsonV)
    requires
        0 <= n <= sgs.len(),
    ensures
        subgroup_items(sgs, n).contains(x) <==> exists|s: int|
            0 <= s < n && array_or_empty(#[trigger] sgs[s], "items"@).contains(x),
    decreases n,
{
    if n > 0 {
        lemma_subgroup_items(sgs, n - 1, x);
        let a = subgroup_items(sgs, n - 1);
        let b = array_or_empty(sgs[n - 1], "items"@);
        let now = subgroup_items(sgs, n);
        if a.contains(x) {
            let k = choose|k: int| 0 <= k < a.len() && a[k] == x;
            assert(now[k] == x);
        }
        if b.contains(x) {
            let k = choose|k: int| 0 <= k < b.len() && b[k] == x;
            assert(now[a.len() + k] == x);
        }
        if now.contains(x) {
            let k = choose|k: int| 0 <= k < now.len() && now[k] == x;
            if k < a.len() {
                assert(a[k] == x);
            } else {
                assert(b[k - a.len()] == x);
                assert(array_or_empty(sgs[n - 1], "items"@).contains(x));
            }
        }
    }
}

/// The items of the rules are those of all groups, and of all subgroups where a group has them.
pub proof fn law_all_items(groups: Seq<JsonV>, n: int, x: JsonV)
    requires
        0 <= n <= groups.len(),
    ensures
        groups_items(groups, n).contains(x) <==> exists|g: int|
            0 <= g < n && in_group(#[trigger] groups[g], x),
    decreases n,
{
    if n > 0 {
        law_all_items(groups, n - 1, x);
        let a = groups_items(groups, n - 1);
        let b = group_items(groups[n - 1]);
        let now = groups_items(groups, n);
        if array_member(groups[n - 1], "subGroups"@) is Some {
            let sgs = array_member(groups[n - 1], "subGroups"@)->0;
            lemma_subgroup_items(sgs, sgs.len() as int, x);
        }
        assert(b.contains(x) <==> in_group(groups[n - 1], x));
        if a.contains(x) {
            let k = choose|k: int| 0 <= k < a.len() && a[k] == x;
            assert(now[k] == x);
        }
        if b.contains(x) {
            let k = choose|k: int| 0 <= k < b.len() && b[k] == x;
            assert(now[a.len() + k] == x);
        }
        if now.contains(x) {
            let k = choose|k: int| 0 <= k < now.len() && now[k] == x;
            if k < a.len() {
                assert(a[k] == x);
            } else {
                assert(b[k - a.len()] == x);
            }
        }
    }
}

/// The rule of an item is the last with its id.
pub proof fn law_last_rule_counts(items: Seq<JsonV>, n: int, id: Seq<char>, i: int)
    requires
        0 <= i < n <= items.len(),
        text_member(items[i], "id"@) == Some(id),
        forall|j: int| i < j < n ==> text_member(#[trigger] items[j], "id"@) != Some(id),
    ensures
        last_with_id(items, n, id) == Some(items[i]),
    decreases n,
{
    if i < n - 1 {
        law_last_rule_counts(items, n - 1, id, i);
    }
}

/// Every category that is asked for and has a rule is reported in full, in its turn.
pub proof fn law_every_category_is_reported(
    cats: Seq<JsonV>,
    n: int,
    items: Seq<JsonV>,
    configured: JsonV,
    running: Seq<Seq<char>>,
    w: World,
    i: int,
    k: int,
)
    requires
        0 <= i < n <= cats.len(),
        cats[i] is Str,
        last_with_id(items, items.len() as int, cats[i]->Str_0) is Some,
    ensures
        ({
            let rule = last_with_id(items, items.len() as int, cats[i]->Str_0)->0;
            let before = reports(cats, i, items, configured, running, w);
            let r = rule_report(cats[i]->Str_0, rule, configured, running, before.rows, w);
            let all = reports(cats, n, items, configured, running, w);
            &&& before.out.len() + r.out.len() <= all.out.len()
            &&& 0 <= k < r.out.len() ==> all.out[before.out.len() + k] == r.out[k]
            &&& before.err.len() + r.err.len() <= all.err.len()
            &&& 0 <= k < r.err.len() ==> all.err[before.err.len() + k] == r.err[k]
        }),
    decreases n,
{
    if i < n - 1 {
        law_every_category_is_reported(cats, n - 1, items, configured, running, w, i, k);
    }
}

// -------------------------------------------------------------------------- files in use

/// A file is in use where it is there and cannot be opened alone; a directory never is.
pub proof fn law_in_use(w: World, path: Seq<char>)
    ensures
        w.at(path) is None ==> !in_use(w, path),
        w.at(path) matches Some(e) ==> (in_use(w, path) <==> !e.openable && e.kind != Kind::Dir),
{
}

/// The files of a plan that have a path.
pub open spec fn with_path(files: Seq<JsonV>) -> spec_fn(int) -> bool {
    |i: int| text_member(files[i], "path"@) is Some && text_member(files[i], "path"@)->0.len() > 0
}

/// Those of them that are in use.
pub open spec fn used(files: Seq<JsonV>, w: World) -> spec_fn(int) -> bool {
    |i: int| with_path(files)(i) && in_use(w, text_member(files[i], "path"@)->0)
}

/// Every file of a plan that is in use is told with the programs that hold it, no other is, and
/// all with a path are counted.
pub proof fn law_files_in_use_are_told(files: Seq<JsonV>, n: int, w: World, i: int)
    requires
        0 <= n <= files.len(),
    ensures
        locked_lines(files, n, w).1 == count(n, with_path(files)),
        locked_lines(files, n, w).0.len() == count(n, used(files, w)),
        0 <= i < n && used(files, w)(i) && text_member(files[i], "id"@) is Some ==> locked_lines(
            files,
            n,
            w,
        ).0.contains(
            locked_line(
                text_member(files[i], "path"@)->0,
                text_member(files[i], "id"@)->0,
                lockers_of(w, text_member(files[i], "path"@)->0),
            ),
        ),
    decreases n,
{
    if n > 0 {
        law_files_in_use_are_told(files, n - 1, w, i);
        let before = locked_lines(files, n - 1, w).0;
        let now = locked_lines(files, n, w).0;
        if 0 <= i < n && used(files, w)(i) && text_member(files[i], "id"@) is Some {
            let x = locked_line(
                text_member(files[i], "path"@)->0,
                text_member(files[i], "id"@)->0,
                lockers_of(w, text_member(files[i], "path"@)->0),
            );
            if i < n - 1 {
                let k = choose|k: int| 0 <= k < before.len() && before[k] == x;
                assert(now[k] == x);
            } else {
                assert(now[before.len() as int] == x);
            }
        }
    }
}

/// Of the programs that hold a file every one with a name is told, as critical where the system
/// says so.
pub proof fn law_holders_are_told(list: Seq<crate::world::Holder>, n: int, i: int)
    requires
        0 <= i < n <= list.len(),
        list[i].app@.len() > 0,
    ensures
        lockers(list, n).contains((list[i].pid, list[i].app@, list[i].kind == 1000)),
    decreases n,
{
    let x = (list[i].pid, list[i].app@, list[i].kind == 1000);
    let now = lockers(list, n);
    let before = lockers(list, n - 1);
    if i == n - 1 {
        assert(now[before.len() as int] == x);
    } else {
        law_holders_are_told(list, n - 1, i);
        let k = choose|k: int| 0 <= k < before.len() && before[k] == x;
        assert(now[k] == x);
    }
}

} // verus!
