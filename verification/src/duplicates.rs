//! Duplicate files: those with the same contents, similar documents, and those
//! with the same name. Each file is put into one group at most.

use crate::clock::{pad, padded};
use crate::doc_groups::{
    all_warnings, eligible, file_views, find_similar_doc_groups, in_exts, law_similar_separate,
    lemma_similar_number, members, scored_views, sim_exts, similar_groups, FileInfo, FileV,
    SIM_EXT_COUNT, SIM_MAX_DOCS,
};
use crate::double::{
    lemma_over_whole, near, near_whole, over, scaled, times, whole, whole_part_of, Binary,
};
use crate::events::{
    events, extra_pairs, item, item_event, lemma_events_push, plain_item, progress, Event, EventV,
};
use crate::groups::{
    copy_group, group_labels, group_views, groups_of, key_labels, key_views, label_keys, law_groups,
    law_separate, lemma_group_number, separate,
};
use crate::order::{law_ranked, order_desc, ranked};
use crate::paths::{file_name, file_name_of};
use crate::scan::{lemma_walked_appends, walk_level, walked, Collected, ScanCtx, MAX_SCAN_ENTRIES};
use crate::text::{cap64, dec, decimal, digit, hex_char, hex_digit, lowercase, rows};
use crate::world::Entry;
use vstd::hash_set::StringHashSet;
use vstd::prelude::*;

verus! {

/// The fingerprint of contents.
pub uninterp spec fn digest(data: Seq<u8>) -> Seq<u8>;

/// Calls `blake3::hash`, which computes the 32 bytes of the BLAKE3 hash of its
/// input. The result is a function of the input alone, and is named.
#[verifier::external_body]
fn blake3_of(data: &Vec<u8>) -> (out: [u8; 32])
    ensures
        out@ == digest(data@),
{
    *blake3::hash(data.as_slice()).as_bytes()
}

/// The fingerprint of the contents of a file, none where it could not be read.
pub fn file_fp(data: &Option<Vec<u8>>) -> (out: Option<[u8; 32]>)
    ensures
        match (data, out) {
            (Some(d), Some(f)) => f@ == digest(d@),
            (None, None) => true,
            _ => false,
        },
{
    match data {
        Some(d) => Some(blake3_of(d)),
        None => None,
    }
}

// ----------------------------------------------------------------- finding the files

/// What is collected after the first `n` roots.
pub open spec fn gathered(roots: Seq<Entry>, n: int) -> (Collected, Seq<EventV>)
    decreases n,
{
    if n <= 0 {
        (
            Collected {
                files: Seq::empty(),
                counter: 0,
                truncated: false,
                cap: MAX_SCAN_ENTRIES as nat,
            },
            Seq::empty(),
        )
    } else {
        let before = gathered(roots, n - 1);
        walked(before.0, before.1, roots[n - 1], 0)
    }
}

/// What the end of a collection adds to the reports.
pub open spec fn closing(c: Collected) -> Seq<EventV> {
    if c.truncated {
        seq![EventV::Truncated]
    } else {
        Seq::empty()
    }
}

/// The files below the roots, with their sizes. What is reported on the way stands behind
/// what was reported before.
pub fn gather(roots: &Vec<Entry>, out: &mut Vec<Event>) -> (files: Vec<(String, u64)>)
    ensures
        rows(files@) == gathered(roots@, roots@.len() as int).0.files,
        events(final(out)@) == events(old(out)@) + gathered(roots@, roots@.len() as int).1
            + closing(gathered(roots@, roots@.len() as int).0),
{
    let ghost start = events(out@);
    let mut ctx: ScanCtx = ScanCtx::new();
    let mut i: usize = 0;
    assert(events(out@) =~= start + gathered(roots@, 0).1);
    while i < roots.len()
        invariant
            i <= roots@.len(),
            ctx.wf(),
            ctx.view() == gathered(roots@, i as int).0,
            events(out@) == start + gathered(roots@, i as int).1,
        decreases roots@.len() - i,
    {
        proof {
            let g = gathered(roots@, i as int);
            lemma_walked_appends(g.0, start, g.1, roots@[i as int], 0);
        }
        walk_level(&roots[i], &mut ctx, 0, out);
        i += 1;
    }
    ctx.finish(out)
}

// -------------------------------------------------------------------------- contents

/// The hexadecimal digits of the first `n` bytes.
pub open spec fn hex_prefix(data: Seq<u8>, n: int) -> Seq<char>
    decreases n,
{
    if n <= 0 {
        Seq::empty()
    } else {
        hex_prefix(data, n - 1).push(hex_digit(data[n - 1] as nat / 16)).push(
            hex_digit(data[n - 1] as nat % 16),
        )
    }
}

/// The hexadecimal digits of bytes.
pub open spec fn hex_text(data: Seq<u8>) -> Seq<char> {
    hex_prefix(data, data.len() as int)
}

/// Whether the contents of a file of this size are compared.
pub open spec fn print_wanted(size: u64, min_size: u64) -> bool {
    size > 0 && size >= min_size
}

/// Whether the contents of a file of this size are compared.
pub fn wants_print(size: u64, min_size: u64) -> (out: bool)
    ensures
        out == print_wanted(size, min_size),
{
    size > 0 && size >= min_size
}

/// What the files with the same contents have in common: fingerprint and size.
pub open spec fn content_key(f: FileV, min_size: u64) -> Option<Seq<char>> {
    match f.print {
        Some(p) => if print_wanted(f.size, min_size) {
            Some(hex_text(p) + dec(f.size as nat))
        } else {
            None
        },
        None => None,
    }
}

pub open spec fn content_keys(files: Seq<FileV>, min_size: u64) -> Seq<Option<Seq<char>>> {
    Seq::new(files.len(), |i: int| content_key(files[i], min_size))
}

fn hex_of(data: &[u8; 32]) -> (out: String)
    ensures
        out@ == hex_text(data@),
{
    let mut out: String = String::new();
    let mut i: usize = 0;
    assert(out@ =~= Seq::empty());
    while i < 32
        invariant
            i <= 32,
            data@.len() == 32,
            out@ == hex_prefix(data@, i as int),
        decreases 32 - i,
    {
        let b: u8 = data[i];
        out.push(hex_char(b / 16));
        out.push(hex_char(b % 16));
        i += 1;
    }
    out
}

// ---------------------------------------------------------------------- arrangements

/// Groups in the order of their keys, largest first.
pub open spec fn arranged(gs: Seq<Seq<usize>>, keys: Seq<u64>) -> Seq<Seq<usize>> {
    Seq::new(gs.len(), |i: int| gs[ranked(keys, gs.len() as int)[i] as int])
}

fn arrange_groups(gs: &Vec<Vec<usize>>, keys: &Vec<u64>) -> (out: Vec<Vec<usize>>)
    requires
        keys@.len() == gs@.len(),
    ensures
        group_views(out@) == arranged(group_views(gs@), keys@),
{
    let n: usize = keys.len();
    let r: Vec<usize> = order_desc(keys);
    proof {
        law_ranked(keys@, n as int);
    }
    let mut out: Vec<Vec<usize>> = Vec::new();
    let mut i: usize = 0;
    let ghost goal = arranged(group_views(gs@), keys@);
    while i < r.len()
        invariant
            i <= r@.len(),
            r@.len() == gs@.len(),
            r@ == ranked(keys@, gs@.len() as int),
            goal == arranged(group_views(gs@), keys@),
            forall|a: int| 0 <= a < r@.len() ==> (#[trigger] r@[a]) < gs@.len(),
            group_views(out@) == goal.take(i as int),
        decreases r@.len() - i,
    {
        let ghost before = group_views(out@);
        let g: Vec<usize> = copy_group(&gs[r[i]]);
        out.push(g);
        assert(group_views(gs@)[r@[i as int] as int] == g@);
        assert(group_views(out@) =~= before.push(g@));
        i += 1;
        assert(goal.take(i as int) =~= goal.take(i - 1).push(goal[i - 1]));
    }
    assert(goal.take(r@.len() as int) =~= goal);
    out
}

/// The size of the first file of each group.
pub open spec fn first_sizes(files: Seq<FileV>, gs: Seq<Seq<usize>>) -> Seq<u64> {
    Seq::new(gs.len(), |i: int| files[gs[i][0] as int].size)
}

/// The groups of files with the same contents, large files first.
pub open spec fn content_groups(files: Seq<FileV>, min_size: u64) -> Seq<Seq<usize>> {
    let gs = groups_of(key_labels(content_keys(files, min_size)));
    arranged(gs, first_sizes(files, gs))
}

/// Whether every member of every group is the position of a file.
pub open spec fn within(gs: Seq<Seq<usize>>, n: nat) -> bool {
    forall|x: int, k: int|
        0 <= x < gs.len() && 0 <= k < gs[x].len() ==> (#[trigger] gs[x][k]) < n
}

proof fn lemma_arranged_within(gs: Seq<Seq<usize>>, keys: Seq<u64>, n: nat)
    requires
        within(gs, n),
        keys.len() == gs.len() <= usize::MAX,
    ensures
        within(arranged(gs, keys), n),
{
    law_ranked(keys, keys.len() as int);
    let r = ranked(keys, keys.len() as int);
    let out = arranged(gs, keys);
    assert forall|x: int, k: int| 0 <= x < out.len() && 0 <= k < out[x].len() implies (
    #[trigger] out[x][k]) < n by {
        assert(r[x] < gs.len());
        assert(out[x] == gs[r[x] as int]);
        assert(gs[r[x] as int][k] < n);
    }
}

fn find_content_groups(files: &Vec<FileInfo>, min_size: u64) -> (out: Vec<Vec<usize>>)
    ensures
        group_views(out@) == content_groups(file_views(files@), min_size),
        within(group_views(out@), files@.len()),
{
    let ghost fv = file_views(files@);
    let mut keys: Vec<Option<String>> = Vec::new();
    let mut i: usize = 0;
    while i < files.len()
        invariant
            i <= files@.len(),
            fv == file_views(files@),
            keys@.len() == i,
            forall|k: int|
                0 <= k < i ==> (#[trigger] key_views(keys@)[k]) == content_key(fv[k], min_size),
        decreases files@.len() - i,
    {
        let f: &FileInfo = &files[i];
        assert(fv[i as int] == f.view());
        let ghost before = keys@;
        let key: Option<String> = match &f.print {
            Some(p) => if wants_print(f.size, min_size) {
                let mut s: String = hex_of(p);
                s.append(decimal(f.size).as_str());
                Some(s)
            } else {
                None
            },
            None => None,
        };
        keys.push(key);
        assert forall|k: int| 0 <= k < i + 1 implies (#[trigger] key_views(keys@)[k])
            == content_key(fv[k], min_size) by {
            if k < i {
                assert(key_views(before)[k] == content_key(fv[k], min_size));
            }
        }
        i += 1;
    }
    assert(key_views(keys@) =~= content_keys(fv, min_size));
    let labels: Vec<Option<usize>> = label_keys(&keys);
    let gs: Vec<Vec<usize>> = group_labels(&labels);
    proof {
        law_groups(labels@);
    }
    let ghost gv = group_views(gs@);
    let mut sizes: Vec<u64> = Vec::new();
    let mut g: usize = 0;
    while g < gs.len()
        invariant
            g <= gs@.len(),
            fv == file_views(files@),
            gv == group_views(gs@),
            labels@.len() == files@.len(),
            gv == groups_of(labels@),
            forall|x: int|
                0 <= x < groups_of(labels@).len() ==> (#[trigger] groups_of(labels@)[x]).len() >= 2,
            forall|x: int, k: int|
                0 <= x < groups_of(labels@).len() && 0 <= k < groups_of(labels@)[x].len() ==> (
                #[trigger] groups_of(labels@)[x][k]) < labels@.len(),
            sizes@.len() == g,
            forall|x: int| 0 <= x < g ==> (#[trigger] sizes@[x]) == first_sizes(fv, gv)[x],
        decreases gs@.len() - g,
    {
        assert(gv[g as int] == gs@[g as int]@);
        assert(gv[g as int].len() >= 2);
        let head: usize = gs[g][0];
        assert(gv[g as int][0] == head);
        assert(fv[head as int] == files@[head as int].view());
        sizes.push(files[head].size);
        g += 1;
    }
    assert(sizes@ =~= first_sizes(fv, gv));
    proof {
        lemma_arranged_within(gv, sizes@, files@.len());
    }
    arrange_groups(&gs, &sizes)
}

// ------------------------------------------------------------------ what is taken

/// The paths in a set and those of the first `n` files of a group.
pub open spec fn with_group(files: Seq<FileV>, set: Set<Seq<char>>, g: Seq<usize>, n: int) -> Set<
    Seq<char>,
>
    decreases n,
{
    if n <= 0 {
        set
    } else {
        with_group(files, set, g, n - 1).insert(files[g[n - 1] as int].path)
    }
}

/// The paths in a set and those of the first `n` groups.
pub open spec fn with_groups(
    files: Seq<FileV>,
    set: Set<Seq<char>>,
    gs: Seq<Seq<usize>>,
    n: int,
) -> Set<Seq<char>>
    decreases n,
{
    if n <= 0 {
        set
    } else {
        with_group(files, with_groups(files, set, gs, n - 1), gs[n - 1], gs[n - 1].len() as int)
    }
}

fn take_group(files: &Vec<FileInfo>, g: &Vec<usize>, taken: &mut StringHashSet)
    requires
        forall|i: int| 0 <= i < g@.len() ==> (#[trigger] g@[i]) < files@.len(),
    ensures
        final(taken)@ == with_group(file_views(files@), old(taken)@, g@, g@.len() as int),
{
    let ghost start = taken@;
    let mut i: usize = 0;
    while i < g.len()
        invariant
            i <= g@.len(),
            forall|k: int| 0 <= k < g@.len() ==> (#[trigger] g@[k]) < files@.len(),
            taken@ == with_group(file_views(files@), start, g@, i as int),
        decreases g@.len() - i,
    {
        let at: usize = g[i];
        assert(file_views(files@)[at as int] == files@[at as int].view());
        taken.insert(files[at].path.clone());
        i += 1;
    }
}

// ----------------------------------------------------------------------------- names

/// What files with the same name have in common: the name in lower case. Empty
/// files and those already in a group take no part.
pub open spec fn name_key(f: FileV, taken: Set<Seq<char>>) -> Option<Seq<char>> {
    if f.size == 0 || taken.contains(f.path) {
        None
    } else {
        match file_name_of(f.path) {
            Some(n) => if lowercase(n).len() == 0 {
                None
            } else {
                Some(lowercase(n))
            },
            None => None,
        }
    }
}

pub open spec fn name_keys(files: Seq<FileV>, taken: Set<Seq<char>>) -> Seq<Option<Seq<char>>> {
    Seq::new(files.len(), |i: int| name_key(files[i], taken))
}

/// The size of the first `n` files of a group together.
pub open spec fn size_sum(files: Seq<FileV>, g: Seq<usize>, n: int) -> nat
    decreases n,
{
    if n <= 0 {
        0
    } else {
        size_sum(files, g, n - 1) + files[g[n - 1] as int].size as nat
    }
}

/// The size of each group.
pub open spec fn group_sums(files: Seq<FileV>, gs: Seq<Seq<usize>>) -> Seq<u64> {
    Seq::new(gs.len(), |i: int| cap64(size_sum(files, gs[i], gs[i].len() as int)) as u64)
}

/// The groups of files with the same name, large groups first.
pub open spec fn name_groups(files: Seq<FileV>, taken: Set<Seq<char>>) -> Seq<Seq<usize>> {
    let gs = groups_of(key_labels(name_keys(files, taken)));
    arranged(gs, group_sums(files, gs))
}

fn group_size(files: &Vec<FileInfo>, g: &Vec<usize>) -> (out: u64)
    requires
        forall|i: int| 0 <= i < g@.len() ==> (#[trigger] g@[i]) < files@.len(),
    ensures
        out == cap64(size_sum(file_views(files@), g@, g@.len() as int)),
{
    let mut sum: u64 = 0;
    let mut i: usize = 0;
    while i < g.len()
        invariant
            i <= g@.len(),
            forall|k: int| 0 <= k < g@.len() ==> (#[trigger] g@[k]) < files@.len(),
            sum == cap64(size_sum(file_views(files@), g@, i as int)),
        decreases g@.len() - i,
    {
        let at: usize = g[i];
        assert(file_views(files@)[at as int] == files@[at as int].view());
        sum = sum.saturating_add(files[at].size);
        i += 1;
    }
    sum
}

fn find_name_groups(files: &Vec<FileInfo>, taken: &StringHashSet) -> (out: Vec<Vec<usize>>)
    ensures
        group_views(out@) == name_groups(file_views(files@), taken@),
        within(group_views(out@), files@.len()),
{
    let ghost fv = file_views(files@);
    let mut keys: Vec<Option<String>> = Vec::new();
    let mut i: usize = 0;
    while i < files.len()
        invariant
            i <= files@.len(),
            fv == file_views(files@),
            keys@.len() == i,
            forall|k: int|
                0 <= k < i ==> (#[trigger] key_views(keys@)[k]) == name_key(fv[k], taken@),
        decreases files@.len() - i,
    {
        let f: &FileInfo = &files[i];
        assert(fv[i as int] == f.view());
        let ghost before = keys@;
        let key: Option<String> = if f.size == 0 || taken.contains(f.path.as_str()) {
            None
        } else {
            match file_name(f.path.as_str()) {
                Some(n) => {
                    let low: String = n.to_lowercase();
                    if low.as_str().unicode_len() == 0 {
                        None
                    } else {
                        Some(low)
                    }
                },
                None => None,
            }
        };
        keys.push(key);
        assert forall|k: int| 0 <= k < i + 1 implies (#[trigger] key_views(keys@)[k]) == name_key(
            fv[k],
            taken@,
        ) by {
            if k < i {
                assert(key_views(before)[k] == name_key(fv[k], taken@));
            }
        }
        i += 1;
    }
    assert(key_views(keys@) =~= name_keys(fv, taken@));
    let labels: Vec<Option<usize>> = label_keys(&keys);
    let gs: Vec<Vec<usize>> = group_labels(&labels);
    proof {
        law_groups(labels@);
    }
    let ghost gv = group_views(gs@);
    let mut sums: Vec<u64> = Vec::new();
    let mut g: usize = 0;
    while g < gs.len()
        invariant
            g <= gs@.len(),
            fv == file_views(files@),
            gv == group_views(gs@),
            labels@.len() == files@.len(),
            gv == groups_of(labels@),
            forall|x: int, k: int|
                0 <= x < groups_of(labels@).len() && 0 <= k < groups_of(labels@)[x].len() ==> (
                #[trigger] groups_of(labels@)[x][k]) < labels@.len(),
            sums@.len() == g,
            forall|x: int| 0 <= x < g ==> (#[trigger] sums@[x]) == group_sums(fv, gv)[x],
        decreases gs@.len() - g,
    {
        assert(gv[g as int] == gs@[g as int]@);
        assert forall|k: int| 0 <= k < gs@[g as int]@.len() implies (
        #[trigger] gs@[g as int]@[k]) < files@.len() by {
            assert(groups_of(labels@)[g as int][k] < labels@.len());
        }
        sums.push(group_size(files, &gs[g]));
        g += 1;
    }
    assert(sums@ =~= group_sums(fv, gv));
    proof {
        lemma_arranged_within(gv, sums@, files@.len());
    }
    arrange_groups(&gs, &sums)
}

// ---------------------------------------------------------------------- the reports

/// The further members of a reported duplicate.
pub open spec fn dup_extra(
    first: bool,
    gid: Seq<char>,
    kind: Seq<char>,
    sim: Option<u64>,
) -> Seq<(Seq<char>, Seq<char>)> {
    let role = if first {
        "kept"@
    } else {
        "candidate"@
    };
    let plain = seq![("group"@, gid), ("role"@, role), ("match"@, kind)];
    match sim {
        Some(s) => plain.push(("sim"@, dec(s as nat) + "%"@)),
        None => plain,
    }
}

/// The reports of the first `n` files of a group.
pub open spec fn dup_events(
    files: Seq<FileV>,
    g: Seq<usize>,
    n: int,
    gid: Seq<char>,
    kind: Seq<char>,
    sim: Option<u64>,
) -> Seq<EventV>
    decreases n,
{
    if n <= 0 {
        Seq::empty()
    } else {
        let f = files[g[n - 1] as int];
        dup_events(files, g, n - 1, gid, kind, sim).push(
            item_event("duplicate"@, f.path, f.size as nat, dup_extra(n == 1, gid, kind, sim)),
        )
    }
}

/// Reports the files of a group. The first is the one to keep.
fn emit_dup_group(
    files: &Vec<FileInfo>,
    g: &Vec<usize>,
    gid: &str,
    kind: &str,
    sim: Option<u64>,
    out: &mut Vec<Event>,
)
    requires
        forall|i: int| 0 <= i < g@.len() ==> (#[trigger] g@[i]) < files@.len(),
    ensures
        events(final(out)@) == events(old(out)@) + dup_events(
            file_views(files@),
            g@,
            g@.len() as int,
            gid@,
            kind@,
            sim,
        ),
{
    let ghost start = events(out@);
    let ghost fv = file_views(files@);
    let mut i: usize = 0;
    assert(start + Seq::<EventV>::empty() =~= start);
    while i < g.len()
        invariant
            i <= g@.len(),
            fv == file_views(files@),
            forall|k: int| 0 <= k < g@.len() ==> (#[trigger] g@[k]) < files@.len(),
            events(out@) == start + dup_events(fv, g@, i as int, gid@, kind@, sim),
        decreases g@.len() - i,
    {
        let f: &FileInfo = &files[g[i]];
        assert(fv[g@[i as int] as int] == f.view());
        let mut extra: Vec<(&str, String)> = Vec::new();
        extra.push(("group", gid.to_owned()));
        extra.push(
            (
                "role",
                if i == 0 {
                    "kept".to_owned()
                } else {
                    "candidate".to_owned()
                },
            ),
        );
        extra.push(("match", kind.to_owned()));
        match sim {
            Some(s) => {
                let mut t: String = decimal(s);
                t.append("%");
                extra.push(("sim", t));
            },
            None => {},
        }
        assert(extra_pairs(extra@) =~= dup_extra(i == 0, gid@, kind@, sim));
        let e: Event = item("duplicate", f.path.as_str(), f.size, &extra);
        proof {
            lemma_events_push(out@, e);
        }
        let ghost before = events(out@);
        out.push(e);
        i += 1;
        assert(events(out@) =~= start + dup_events(fv, g@, i as int, gid@, kind@, sim));
    }
}

/// The reports of the first `n` groups of one kind, numbered after `from`.
pub open spec fn groups_events(
    files: Seq<FileV>,
    gs: Seq<Seq<usize>>,
    n: int,
    from: nat,
    head: Seq<char>,
    kind: Seq<char>,
    sims: Option<Seq<u64>>,
) -> Seq<EventV>
    decreases n,
{
    if n <= 0 {
        Seq::empty()
    } else {
        let g = gs[n - 1];
        let sim = match sims {
            Some(s) => Some(s[n - 1]),
            None => None,
        };
        groups_events(files, gs, n - 1, from, head, kind, sims) + dup_events(
            files,
            g,
            g.len() as int,
            head + padded(from + n as nat, 4),
            kind,
            sim,
        )
    }
}

/// The reports of the empty files among the first `n`.
pub open spec fn empty_events(files: Seq<FileV>, n: int) -> Seq<EventV>
    decreases n,
{
    if n <= 0 {
        Seq::empty()
    } else if files[n - 1].size == 0 {
        empty_events(files, n - 1).push(
            item_event("emptyfile"@, files[n - 1].path, 0, Seq::empty()),
        )
    } else {
        empty_events(files, n - 1)
    }
}

/// How many files lie between two reports of progress.
pub const PROGRESS_EVERY: usize = 2000;

/// What part of the files has been looked through, out of fifteen.
pub open spec fn pass_share(i: nat, total: nat) -> u64 {
    let x = times(over(whole(i), whole(total)), 15);
    if x.0 / x.1 < 100 {
        (x.0 / x.1) as u64
    } else {
        100
    }
}

/// The reports of progress while the first `n` of the files are looked through.
pub open spec fn pass_events(total: nat, n: int) -> Seq<EventV>
    decreases n,
{
    if n <= 0 {
        Seq::empty()
    } else if (n - 1) % (PROGRESS_EVERY as int) == 0 {
        pass_events(total, n - 1).push(EventV::Progress(pass_share((n - 1) as nat, total)))
    } else {
        pass_events(total, n - 1)
    }
}

/// The percentages of scored groups.
pub open spec fn scores(list: Seq<(u64, Seq<usize>)>) -> Seq<u64> {
    Seq::new(list.len(), |i: int| list[i].0)
}

/// The groups of the three kinds among files.
pub open spec fn all_groups(files: Seq<FileV>, min_size: u64) -> (
    Seq<Seq<usize>>,
    Seq<(u64, Seq<usize>)>,
    Seq<Seq<usize>>,
) {
    let content = content_groups(files, min_size);
    let taken = with_groups(files, Set::empty(), content, content.len() as int);
    let similar = similar_groups(files, taken, SIM_EXT_COUNT as int);
    let more = with_groups(files, taken, members(similar), similar.len() as int);
    (content, similar, name_groups(files, more))
}

/// What is reported while the groups are looked for.
pub open spec fn search_events(files: Seq<FileV>, min_size: u64) -> Seq<EventV> {
    let content = content_groups(files, min_size);
    let taken = with_groups(files, Set::empty(), content, content.len() as int);
    pass_events(files.len(), files.len() as int).push(EventV::Progress(15)).push(
        EventV::Progress(60),
    ) + all_warnings(files, taken, SIM_EXT_COUNT as int) + seq![
        EventV::Progress(85),
        EventV::Progress(95),
    ]
}

/// The reports of the groups: those with the same contents, then those of similar
/// documents, then those of the same name, numbered through.
pub open spec fn found_events(
    files: Seq<FileV>,
    content: Seq<Seq<usize>>,
    similar: Seq<(u64, Seq<usize>)>,
    names: Seq<Seq<usize>>,
) -> Seq<EventV> {
    groups_events(files, content, content.len() as int, 0, "dupc"@, "content"@, None)
        + groups_events(
        files,
        members(similar),
        similar.len() as int,
        content.len(),
        "dups"@,
        "similar"@,
        Some(scores(similar)),
    ) + groups_events(
        files,
        names,
        names.len() as int,
        content.len() + similar.len(),
        "dupn"@,
        "name"@,
        None,
    )
}

/// What a search for duplicates reports: how it comes along, then the groups, and
/// the empty files.
pub open spec fn duplicates_report(files: Seq<FileV>, min_size: u64) -> Seq<EventV> {
    let (content, similar, names) = all_groups(files, min_size);
    search_events(files, min_size) + found_events(files, content, similar, names) + empty_events(
        files,
        files.len() as int,
    ).push(EventV::Progress(100))
}

fn push_event(out: &mut Vec<Event>, e: Event)
    ensures
        events(final(out)@) == events(old(out)@).push(e.view()),
{
    proof {
        lemma_events_push(out@, e);
    }
    out.push(e);
}

fn emit_groups(
    files: &Vec<FileInfo>,
    gs: &Vec<Vec<usize>>,
    from: usize,
    head: &str,
    kind: &str,
    out: &mut Vec<Event>,
)
    requires
        within(group_views(gs@), files@.len()),
        from + gs@.len() <= u64::MAX,
    ensures
        events(final(out)@) == events(old(out)@) + groups_events(
            file_views(files@),
            group_views(gs@),
            gs@.len() as int,
            from as nat,
            head@,
            kind@,
            None,
        ),
{
    let ghost start = events(out@);
    let ghost fv = file_views(files@);
    let ghost gv = group_views(gs@);
    let mut i: usize = 0;
    assert(start + Seq::<EventV>::empty() =~= start);
    while i < gs.len()
        invariant
            i <= gs@.len(),
            fv == file_views(files@),
            gv == group_views(gs@),
            within(gv, files@.len()),
            from + gs@.len() <= u64::MAX,
            events(out@) == start + groups_events(fv, gv, i as int, from as nat, head@, kind@, None),
        decreases gs@.len() - i,
    {
        let mut gid: String = head.to_owned();
        gid.append(pad(from as u64 + i as u64 + 1, 4).as_str());
        assert(gv[i as int] == gs@[i as int]@);
        assert forall|k: int| 0 <= k < gs@[i as int]@.len() implies (
        #[trigger] gs@[i as int]@[k]) < files@.len() by {
            assert(gv[i as int][k] < files@.len());
        }
        emit_dup_group(files, &gs[i], gid.as_str(), kind, None, out);
        i += 1;
        assert(events(out@) =~= start + groups_events(
            fv,
            gv,
            i as int,
            from as nat,
            head@,
            kind@,
            None,
        ));
    }
}

fn emit_similar(files: &Vec<FileInfo>, gs: &Vec<(u64, Vec<usize>)>, from: usize, out: &mut Vec<Event>)
    requires
        forall|i: int, k: int|
            0 <= i < gs@.len() && 0 <= k < gs@[i].1@.len() ==> (#[trigger] gs@[i].1@[k])
                < files@.len(),
        from + gs@.len() <= u64::MAX,
    ensures
        events(final(out)@) == events(old(out)@) + groups_events(
            file_views(files@),
            members(scored_views(gs@)),
            gs@.len() as int,
            from as nat,
            "dups"@,
            "similar"@,
            Some(scores(scored_views(gs@))),
        ),
{
    let ghost start = events(out@);
    let ghost fv = file_views(files@);
    let ghost gv = members(scored_views(gs@));
    let ghost sims = scores(scored_views(gs@));
    let mut i: usize = 0;
    assert(start + Seq::<EventV>::empty() =~= start);
    while i < gs.len()
        invariant
            i <= gs@.len(),
            fv == file_views(files@),
            gv == members(scored_views(gs@)),
            sims == scores(scored_views(gs@)),
            forall|x: int, k: int|
                0 <= x < gs@.len() && 0 <= k < gs@[x].1@.len() ==> (#[trigger] gs@[x].1@[k])
                    < files@.len(),
            from + gs@.len() <= u64::MAX,
            events(out@) == start + groups_events(
                fv,
                gv,
                i as int,
                from as nat,
                "dups"@,
                "similar"@,
                Some(sims),
            ),
        decreases gs@.len() - i,
    {
        let mut gid: String = "dups".to_owned();
        gid.append(pad(from as u64 + i as u64 + 1, 4).as_str());
        assert(gv[i as int] == gs@[i as int].1@);
        assert(sims[i as int] == gs@[i as int].0);
        emit_dup_group(files, &gs[i].1, gid.as_str(), "similar", Some(gs[i].0), out);
        i += 1;
        assert(events(out@) =~= start + groups_events(
            fv,
            gv,
            i as int,
            from as nat,
            "dups"@,
            "similar"@,
            Some(sims),
        ));
    }
}

fn emit_empty(files: &Vec<FileInfo>, out: &mut Vec<Event>)
    ensures
        events(final(out)@) == events(old(out)@) + empty_events(
            file_views(files@),
            files@.len() as int,
        ),
{
    let ghost start = events(out@);
    let ghost fv = file_views(files@);
    let mut i: usize = 0;
    assert(start + Seq::<EventV>::empty() =~= start);
    while i < files.len()
        invariant
            i <= files@.len(),
            fv == file_views(files@),
            events(out@) == start + empty_events(fv, i as int),
        decreases files@.len() - i,
    {
        assert(fv[i as int] == files@[i as int].view());
        if files[i].size == 0 {
            push_event(out, plain_item("emptyfile", files[i].path.as_str(), 0));
        }
        i += 1;
        assert(events(out@) =~= start + empty_events(fv, i as int));
    }
}

/// What part of the files has been looked through, out of fifteen.
pub fn pass_share_of(i: usize, total: usize) -> (out: u64)
    requires
        i < total,
    ensures
        out == pass_share(i as nat, total as nat),
        out <= 100,
{
    let done: u128 = near_whole(i as u128);
    let all: u128 = near_whole(total as u128);
    let x: Binary = near(done, all);
    let y: Binary = scaled(x, 15, 1);
    let share: u128 = whole_part_of(y);
    proof {
        lemma_over_whole(whole(i as nat), whole(total as nat));
        assert(over(whole(i as nat), whole(total as nat)) == x.view());
        assert(times(x.view(), 15) == y.view());
    }
    if share < 100 {
        share as u64
    } else {
        100
    }
}

fn emit_pass(total: usize, out: &mut Vec<Event>)
    ensures
        events(final(out)@) == events(old(out)@) + pass_events(total as nat, total as int),
{
    let ghost start = events(out@);
    let mut i: usize = 0;
    assert(start + Seq::<EventV>::empty() =~= start);
    while i < total
        invariant
            i <= total,
            events(out@) == start + pass_events(total as nat, i as int),
        decreases total - i,
    {
        if i % PROGRESS_EVERY == 0 {
            push_event(out, progress(pass_share_of(i, total)));
        }
        i += 1;
        assert(events(out@) =~= start + pass_events(total as nat, i as int));
    }
}

proof fn lemma_group_count(files: Seq<FileV>, min_size: u64)
    ensures
        all_groups(files, min_size).0.len() <= files.len(),
        all_groups(files, min_size).1.len() <= SIM_EXT_COUNT * SIM_MAX_DOCS,
        all_groups(files, min_size).2.len() <= files.len(),
{
    let (content, similar, names) = all_groups(files, min_size);
    let taken = with_groups(files, Set::empty(), content, content.len() as int);
    let labels = key_labels(content_keys(files, min_size));
    lemma_group_number(labels, labels.len() as int);
    lemma_similar_number(files, taken, SIM_EXT_COUNT as int);
    let more = with_groups(files, taken, members(similar), similar.len() as int);
    let named = key_labels(name_keys(files, more));
    lemma_group_number(named, named.len() as int);
}

/// Looks for the groups of the three kinds.
fn find_groups(files: &Vec<FileInfo>, min_size: u64, out: &mut Vec<Event>) -> (found: (
    Vec<Vec<usize>>,
    Vec<(u64, Vec<usize>)>,
    Vec<Vec<usize>>,
))
    ensures
        (group_views(found.0@), scored_views(found.1@), group_views(found.2@)) == all_groups(
            file_views(files@),
            min_size,
        ),
        within(group_views(found.0@), files@.len()),
        forall|i: int, k: int|
            0 <= i < found.1@.len() && 0 <= k < found.1@[i].1@.len() ==> (
            #[trigger] found.1@[i].1@[k]) < files@.len(),
        within(group_views(found.2@), files@.len()),
        events(final(out)@) == events(old(out)@) + search_events(file_views(files@), min_size),
{
    let ghost fv = file_views(files@);
    let ghost e0 = events(out@);
    emit_pass(files.len(), out);
    push_event(out, progress(15));
    let content: Vec<Vec<usize>> = find_content_groups(files, min_size);
    push_event(out, progress(60));
    let ghost head = pass_events(fv.len(), fv.len() as int).push(EventV::Progress(15)).push(
        EventV::Progress(60),
    );
    assert(events(out@) =~= e0 + head);
    let ghost cv = group_views(content@);
    let mut taken: StringHashSet = StringHashSet::new();
    let mut i: usize = 0;
    while i < content.len()
        invariant
            i <= content@.len(),
            fv == file_views(files@),
            cv == group_views(content@),
            within(cv, files@.len()),
            taken@ == with_groups(fv, Set::empty(), cv, i as int),
        decreases content@.len() - i,
    {
        assert(cv[i as int] == content@[i as int]@);
        assert forall|k: int| 0 <= k < content@[i as int]@.len() implies (
        #[trigger] content@[i as int]@[k]) < files@.len() by {
            assert(cv[i as int][k] < files@.len());
        }
        take_group(files, &content[i], &mut taken);
        i += 1;
    }
    let ghost t1 = taken@;
    let similar: Vec<(u64, Vec<usize>)> = find_similar_doc_groups(files, &taken, out);
    let ghost sv = scored_views(similar@);
    let ghost warned = all_warnings(fv, t1, SIM_EXT_COUNT as int);
    assert(events(out@) =~= e0 + (head + warned));
    let mut k: usize = 0;
    while k < similar.len()
        invariant
            k <= similar@.len(),
            fv == file_views(files@),
            sv == scored_views(similar@),
            forall|x: int, y: int|
                0 <= x < similar@.len() && 0 <= y < similar@[x].1@.len() ==> (
                #[trigger] similar@[x].1@[y]) < files@.len(),
            taken@ == with_groups(fv, t1, members(sv), k as int),
        decreases similar@.len() - k,
    {
        assert(members(sv)[k as int] == similar@[k as int].1@);
        take_group(files, &similar[k].1, &mut taken);
        k += 1;
    }
    push_event(out, progress(85));
    let names: Vec<Vec<usize>> = find_name_groups(files, &taken);
    push_event(out, progress(95));
    assert(events(out@) =~= e0 + search_events(fv, min_size));
    (content, similar, names)
}

/// Reports the duplicates among files that were found and read.
pub fn duplicates(files: &Vec<FileInfo>, min_size: u64, out: &mut Vec<Event>)
    requires
        files@.len() <= MAX_SCAN_ENTRIES,
    ensures
        events(final(out)@) == events(old(out)@) + duplicates_report(file_views(files@), min_size),
{
    let ghost fv = file_views(files@);
    let ghost e0 = events(out@);
    let (content, similar, names) = find_groups(files, min_size, out);
    proof {
        lemma_group_count(fv, min_size);
    }
    let ghost (cv, sv, nv) = all_groups(fv, min_size);
    let c: usize = content.len();
    assert(cv.len() == c && sv.len() == similar@.len() && nv.len() == names@.len());
    let ghost searched = search_events(fv, min_size);
    emit_groups(files, &content, 0, "dupc", "content", out);
    emit_similar(files, &similar, c, out);
    emit_groups(files, &names, c + similar.len(), "dupn", "name", out);
    let ghost found = found_events(fv, cv, sv, nv);
    assert(events(out@) =~= e0 + (searched + found));
    emit_empty(files, out);
    push_event(out, progress(100));
    assert(events(out@) =~= e0 + duplicates_report(fv, min_size));
}

// ------------------------------------------------------------------------------ laws

proof fn lemma_arranged_separate(gs: Seq<Seq<usize>>, keys: Seq<u64>)
    requires
        separate(gs),
        keys.len() == gs.len() <= usize::MAX,
    ensures
        separate(arranged(gs, keys)),
{
    law_ranked(keys, keys.len() as int);
    let r = ranked(keys, keys.len() as int);
    let out = arranged(gs, keys);
    assert forall|x: int, i: int, y: int, j: int|
        0 <= x < y < out.len() && 0 <= i < out[x].len() && 0 <= j < out[y].len() implies (
    #[trigger] out[x][i]) != (#[trigger] out[y][j]) by {
        assert(r[x] != r[y]);
        assert(r[x] < gs.len() && r[y] < gs.len());
        assert(out[x] == gs[r[x] as int] && out[y] == gs[r[y] as int]);
        if r[x] < r[y] {
            assert(gs[r[x] as int][i] != gs[r[y] as int][j]);
        } else {
            assert(gs[r[y] as int][j] != gs[r[x] as int][i]);
        }
    }
}

proof fn lemma_with_group(files: Seq<FileV>, set: Set<Seq<char>>, g: Seq<usize>, n: int)
    requires
        0 <= n <= g.len(),
    ensures
        set.subset_of(with_group(files, set, g, n)),
        forall|i: int|
            0 <= i < n ==> with_group(files, set, g, n).contains(
                files[(#[trigger] g[i]) as int].path,
            ),
    decreases n,
{
    if n > 0 {
        lemma_with_group(files, set, g, n - 1);
    }
}

proof fn lemma_with_groups(files: Seq<FileV>, set: Set<Seq<char>>, gs: Seq<Seq<usize>>, n: int)
    requires
        0 <= n <= gs.len(),
    ensures
        set.subset_of(with_groups(files, set, gs, n)),
        forall|x: int, i: int|
            0 <= x < n && 0 <= i < gs[x].len() ==> with_groups(files, set, gs, n).contains(
                files[(#[trigger] gs[x][i]) as int].path,
            ),
    decreases n,
{
    if n > 0 {
        lemma_with_groups(files, set, gs, n - 1);
        lemma_with_group(
            files,
            with_groups(files, set, gs, n - 1),
            gs[n - 1],
            gs[n - 1].len() as int,
        );
        assert forall|x: int, i: int| 0 <= x < n && 0 <= i < gs[x].len() implies with_groups(
            files,
            set,
            gs,
            n,
        ).contains(files[(#[trigger] gs[x][i]) as int].path) by {
            if x < n - 1 {
                assert(with_groups(files, set, gs, n - 1).contains(
                    files[gs[x][i] as int].path,
                ));
            }
        }
    }
}

/// Every file is in one group at most: no two of all the groups that a search
/// reports, of whatever kind, have a file in common.
pub proof fn law_one_group(files: Seq<FileV>, min_size: u64)
    requires
        files.len() <= usize::MAX,
    ensures
        ({
            let (content, similar, names) = all_groups(files, min_size);
            separate(content + members(similar) + names)
        }),
{
    let (content, similar, names) = all_groups(files, min_size);
    let sim = members(similar);
    let all = content + sim + names;
    let taken = with_groups(files, Set::empty(), content, content.len() as int);
    let more = with_groups(files, taken, sim, sim.len() as int);
    let clabels = key_labels(content_keys(files, min_size));
    let nkeys = name_keys(files, more);
    let nlabels = key_labels(nkeys);
    law_separate(clabels);
    law_separate(nlabels);
    law_groups(clabels);
    law_groups(nlabels);
    lemma_group_number(clabels, clabels.len() as int);
    lemma_group_number(nlabels, nlabels.len() as int);
    let cg = groups_of(clabels);
    let ng = groups_of(nlabels);
    let csizes = first_sizes(files, cg);
    let nsums = group_sums(files, ng);
    lemma_arranged_separate(cg, csizes);
    lemma_arranged_separate(ng, nsums);
    law_ranked(nsums, ng.len() as int);
    let r = ranked(nsums, ng.len() as int);
    law_similar_separate(files, taken, SIM_EXT_COUNT as int);
    lemma_with_groups(files, Set::empty(), content, content.len() as int);
    lemma_with_groups(files, taken, sim, sim.len() as int);
    assert forall|y: int, j: int| 0 <= y < names.len() && 0 <= j < names[y].len() implies (
    #[trigger] names[y][j]) < files.len() && !more.contains(
        files[names[y][j] as int].path,
    ) by {
        assert(r[y] < ng.len());
        assert(names[y] == ng[r[y] as int]);
        assert(ng[r[y] as int][j] < nlabels.len());
        assert(nlabels[ng[r[y] as int][j] as int] is Some);
        assert(nkeys[names[y][j] as int] is Some);
    }
    assert forall|y: int, j: int| 0 <= y < sim.len() && 0 <= j < sim[y].len() implies (
    #[trigger] sim[y][j]) < files.len() && !taken.contains(files[sim[y][j] as int].path) by {
        let f = files[sim[y][j] as int];
        assert(in_exts(f, taken, SIM_EXT_COUNT as int));
        let e = choose|e: int|
            0 <= e < SIM_EXT_COUNT && eligible(f, #[trigger] sim_exts()[e], taken);
        assert(eligible(f, sim_exts()[e], taken));
    }
    let a = content.len() as int;
    let b = a + sim.len();
    assert forall|x: int, i: int, y: int, j: int|
        0 <= x < y < all.len() && 0 <= i < all[x].len() && 0 <= j < all[y].len() implies (
    #[trigger] all[x][i]) != (#[trigger] all[y][j]) by {
        if x < a {
            assert(all[x] == content[x]);
            assert(taken.contains(files[content[x][i] as int].path));
            assert(more.contains(files[content[x][i] as int].path));
        } else if x < b {
            assert(all[x] == sim[x - a]);
            assert(more.contains(files[sim[x - a][i] as int].path));
        } else {
            assert(all[x] == names[x - b]);
        }
        if y < a {
            assert(all[y] == content[y]);
            assert(content[x][i] != content[y][j]);
        } else if y < b {
            assert(all[y] == sim[y - a]);
            if x >= a {
                assert(sim[x - a][i] != sim[y - a][j]);
            } else {
                assert(!taken.contains(files[sim[y - a][j] as int].path));
            }
        } else {
            assert(all[y] == names[y - b]);
            if x >= b {
                assert(names[x - b][i] != names[y - b][j]);
            } else {
                assert(!more.contains(files[names[y - b][j] as int].path));
            }
        }
    }
}

proof fn lemma_hex(a: Seq<u8>, b: Seq<u8>, n: int)
    requires
        0 <= n <= a.len(),
        n <= b.len(),
    ensures
        hex_prefix(a, n).len() == 2 * n,
        hex_prefix(a, n) == hex_prefix(b, n) ==> forall|k: int|
            0 <= k < n ==> (#[trigger] a[k]) == b[k],
    decreases n,
{
    if n > 0 {
        lemma_hex(a, b, n - 1);
        lemma_hex(b, a, n - 1);
        let x = hex_prefix(a, n);
        let y = hex_prefix(b, n);
        if x == y {
            assert(hex_prefix(a, n - 1) =~= x.take(2 * n - 2));
            assert(hex_prefix(b, n - 1) =~= y.take(2 * n - 2));
            assert(x[2 * n - 2] == y[2 * n - 2] && x[2 * n - 1] == y[2 * n - 1]);
            let p = a[n - 1] as nat;
            let q = b[n - 1] as nat;
            assert(hex_digit(p / 16) == hex_digit(q / 16));
            assert(hex_digit(p % 16) == hex_digit(q % 16));
            assert(p / 16 == q / 16 && p % 16 == q % 16);
        }
    }
}

proof fn lemma_dec_len(a: nat)
    ensures
        dec(a).len() >= 1,
        a >= 10 ==> dec(a).len() >= 2,
    decreases a,
{
    if a >= 10 {
        lemma_dec_len(a / 10);
    }
}

proof fn lemma_dec(a: nat, b: nat)
    requires
        dec(a) == dec(b),
    ensures
        a == b,
    decreases a,
{
    lemma_dec_len(a);
    lemma_dec_len(b);
    if a < 10 {
        assert(dec(a).len() == 1);
        assert(dec(a)[0] == digit(a) && dec(b)[0] == digit(b));
    } else {
        assert(dec(a / 10) =~= dec(a).drop_last());
        assert(dec(b / 10) =~= dec(b).drop_last());
        assert(dec(a).last() == digit(a % 10) && dec(b).last() == digit(b % 10));
        lemma_dec(a / 10, b / 10);
    }
}

/// Two files are grouped by their contents exactly where both their fingerprints
/// and their sizes are equal.
pub proof fn law_content_key(a: FileV, b: FileV, min_size: u64)
    requires
        a.print matches Some(p) && p.len() == 32,
        b.print matches Some(p) && p.len() == 32,
        print_wanted(a.size, min_size),
        print_wanted(b.size, min_size),
    ensures
        content_key(a, min_size) == content_key(b, min_size) <==> a.print == b.print && a.size
            == b.size,
{
    let p = a.print->0;
    let q = b.print->0;
    lemma_hex(p, q, 32);
    lemma_hex(q, p, 32);
    let x = hex_text(p) + dec(a.size as nat);
    let y = hex_text(q) + dec(b.size as nat);
    if x == y {
        assert(hex_text(p) =~= x.take(64));
        assert(hex_text(q) =~= y.take(64));
        assert(dec(a.size as nat) =~= x.skip(64));
        assert(dec(b.size as nat) =~= y.skip(64));
        lemma_dec(a.size as nat, b.size as nat);
        assert(p =~= q);
    }
}

} // verus!
