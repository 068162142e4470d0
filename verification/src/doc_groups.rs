//! Groups of similar documents among the files that a scan has found.

use crate::docx::SIM_MAX_BYTES;
use crate::events::{events, lemma_events_push, Event, EventV};
use crate::groups::{
    copy_group, group_labels, group_views, groups_of, law_groups, law_separate,
    lemma_group_number, separate,
};
use crate::order::{law_ranked, order_desc, ranked};
use crate::paths::{extension, extension_of};
use crate::similar::{
    alike_pairs, from_pair, has_entry, lengths, link_alike, linked, lists, percent, sketches,
    used_up, Sketch, SIM_MIN_SHINGLES,
};
use crate::text::{dec, decimal, lowercase, same};
use vstd::hash_set::StringHashSet;
use vstd::prelude::*;

verus! {

/// A file that a scan has found: its path and size, the fingerprint of its
/// contents where it was read, and its sketch where it is a document.
#[derive(Debug)]
pub struct FileInfo {
    pub path: String,
    pub size: u64,
    pub print: Option<[u8; 32]>,
    pub sketch: Option<Sketch>,
}

/// The mathematical value of a found file.
pub struct FileV {
    pub path: Seq<char>,
    pub size: u64,
    pub print: Option<Seq<u8>>,
    pub sketch: Option<Seq<u64>>,
}

impl FileInfo {
    pub open spec fn view(self) -> FileV {
        FileV {
            path: self.path@,
            size: self.size,
            print: match self.print {
                Some(p) => Some(p@),
                None => None,
            },
            sketch: match self.sketch {
                Some(s) => Some(s.view()),
                None => None,
            },
        }
    }
}

/// The values of a list of found files.
pub open spec fn file_views(v: Seq<FileInfo>) -> Seq<FileV> {
    Seq::new(v.len(), |i: int| v[i].view())
}

/// The smallest document that is compared, in bytes.
pub const SIM_MIN_BYTES: u64 = 256;

/// How many documents with one extension are compared at most.
pub const SIM_MAX_DOCS: usize = 2000;

/// How many extensions documents have.
pub const SIM_EXT_COUNT: usize = 5;

/// The extensions of documents.
pub open spec fn sim_exts() -> Seq<Seq<char>> {
    seq!["txt"@, "md"@, "log"@, "csv"@, "docx"@]
}

fn sim_ext(k: usize) -> (out: &'static str)
    requires
        k < SIM_EXT_COUNT,
    ensures
        out@ == sim_exts()[k as int],
{
    if k == 0 {
        "txt"
    } else if k == 1 {
        "md"
    } else if k == 2 {
        "log"
    } else if k == 3 {
        "csv"
    } else {
        "docx"
    }
}

/// Whether a file is of a size that is compared.
pub open spec fn sim_size(size: u64) -> bool {
    SIM_MIN_BYTES <= size <= SIM_MAX_BYTES
}

/// Whether a file is a document with the extension, of a size that is compared,
/// and not yet in a group.
pub open spec fn eligible(f: FileV, ext: Seq<char>, taken: Set<Seq<char>>) -> bool {
    sim_size(f.size) && !taken.contains(f.path) && (extension_of(f.path) matches Some(e)
        && lowercase(e) == ext)
}

/// Those of the first `n` files that are eligible.
pub open spec fn candidates(
    files: Seq<FileV>,
    ext: Seq<char>,
    taken: Set<Seq<char>>,
    n: int,
) -> Seq<usize>
    decreases n,
{
    if n <= 0 {
        Seq::empty()
    } else if eligible(files[n - 1], ext, taken) {
        candidates(files, ext, taken, n - 1).push((n - 1) as usize)
    } else {
        candidates(files, ext, taken, n - 1)
    }
}

/// Whether a file has a sketch that is large enough.
pub open spec fn sketched(f: FileV) -> bool {
    f.sketch matches Some(s) && s.len() >= SIM_MIN_SHINGLES
}

/// Those of the first `n` candidates that have a sketch that is large enough.
pub open spec fn with_sketch(files: Seq<FileV>, list: Seq<usize>, n: int) -> Seq<usize>
    decreases n,
{
    if n <= 0 {
        Seq::empty()
    } else if sketched(files[list[n - 1] as int]) {
        with_sketch(files, list, n - 1).push(list[n - 1])
    } else {
        with_sketch(files, list, n - 1)
    }
}

/// The key that puts small sketches first.
pub open spec fn length_keys(files: Seq<FileV>, list: Seq<usize>) -> Seq<u64> {
    Seq::new(
        list.len(),
        |i: int| (u64::MAX - files[list[i] as int].sketch->0.len() as u64) as u64,
    )
}

/// The documents of one extension that are compared, small sketches first.
pub open spec fn documents(files: Seq<FileV>, ext: Seq<char>, taken: Set<Seq<char>>) -> Seq<usize> {
    let all = candidates(files, ext, taken, files.len() as int);
    let first = if all.len() > SIM_MAX_DOCS {
        all.take(SIM_MAX_DOCS as int)
    } else {
        all
    };
    let list = with_sketch(files, first, first.len() as int);
    let r = ranked(length_keys(files, list), list.len() as int);
    Seq::new(list.len(), |i: int| list[r[i] as int])
}

/// The sketches of documents.
pub open spec fn sketches_of(files: Seq<FileV>, docs: Seq<usize>) -> Seq<Seq<u64>> {
    Seq::new(docs.len(), |i: int| files[docs[i] as int].sketch->0)
}

// ----------------------------------------------------------------------- the groups

/// The first document at or after `j` that is linked with document `a`.
pub open spec fn least_linked(pairs: Set<(int, int)>, n: nat, a: int, j: int) -> int
    decreases a - j,
{
    if j < 0 || j >= a || linked(pairs, n, j, a) {
        j
    } else {
        least_linked(pairs, n, a, j + 1)
    }
}

/// The label of each document: the first document it is linked with.
pub open spec fn link_labels(sk: Seq<Seq<u64>>) -> Seq<Option<usize>> {
    Seq::new(
        sk.len(),
        |a: int| Some(least_linked(alike_pairs(sk), sk.len(), a, 0) as usize),
    )
}

/// Whether `p` is the lowest percentage of the alike pairs whose documents carry
/// the label `h`.
pub open spec fn is_lowest(sk: Seq<Seq<u64>>, h: usize, p: nat) -> bool {
    &&& forall|a: int, b: int| #[trigger]
        alike_pairs(sk).contains((a, b)) && link_labels(sk)[a] == Some(h) ==> p <= percent(
            sk[a],
            sk[b],
        )
    &&& p <= 100
    &&& p == 100 || exists|a: int, b: int| #[trigger]
        alike_pairs(sk).contains((a, b)) && link_labels(sk)[a] == Some(h) && p == percent(
            sk[a],
            sk[b],
        )
}

/// The lowest percentage of the alike pairs whose documents carry a label.
pub open spec fn lowest(sk: Seq<Seq<u64>>, h: usize) -> nat {
    choose|p: nat| is_lowest(sk, h, p)
}

proof fn lemma_lowest(sk: Seq<Seq<u64>>, h: usize, p: nat)
    requires
        is_lowest(sk, h, p),
    ensures
        lowest(sk, h) == p,
{
    let q = lowest(sk, h);
    assert(is_lowest(sk, h, q));
    if q < p {
        let (a, b) = choose|a: int, b: int| #[trigger]
            alike_pairs(sk).contains((a, b)) && link_labels(sk)[a] == Some(h) && q == percent(
                sk[a],
                sk[b],
            );
        assert(alike_pairs(sk).contains((a, b)));
        assert(p <= percent(sk[a], sk[b]));
    }
    if p < q {
        let (a, b) = choose|a: int, b: int| #[trigger]
            alike_pairs(sk).contains((a, b)) && link_labels(sk)[a] == Some(h) && p == percent(
                sk[a],
                sk[b],
            );
        assert(alike_pairs(sk).contains((a, b)));
        assert(q <= percent(sk[a], sk[b]));
    }
}

proof fn lemma_least(pairs: Set<(int, int)>, n: nat, a: int, j: int, at: int)
    requires
        0 <= j <= at <= a,
        linked(pairs, n, at, a),
        forall|k: int| j <= k < at ==> !linked(pairs, n, k, a),
    ensures
        least_linked(pairs, n, a, j) == at,
    decreases at - j,
{
    if j < at {
        assert(!linked(pairs, n, j, a));
        lemma_least(pairs, n, a, j + 1, at);
    }
}

/// The label of each document, from the root of each.
fn first_linked(roots: &Vec<usize>, Ghost(sk): Ghost<Seq<Seq<u64>>>) -> (out: Vec<Option<usize>>)
    requires
        roots@.len() == sk.len(),
        forall|a: int, b: int|
            0 <= a < sk.len() && 0 <= b < sk.len() ==> (roots@[a] == roots@[b]) == linked(
                alike_pairs(sk),
                sk.len(),
                a,
                b,
            ),
    ensures
        out@ == link_labels(sk),
        forall|i: int|
            0 <= i < out@.len() ==> ((#[trigger] out@[i]) matches Some(l) && l <= i),
{
    let ghost pairs = alike_pairs(sk);
    let ghost n = sk.len();
    let mut out: Vec<Option<usize>> = Vec::new();
    let mut i: usize = 0;
    while i < roots.len()
        invariant
            i <= roots@.len(),
            roots@.len() == sk.len(),
            n == sk.len(),
            pairs == alike_pairs(sk),
            out@ == link_labels(sk).take(i as int),
            forall|k: int| 0 <= k < i ==> ((#[trigger] out@[k]) matches Some(l) && l <= k),
            forall|a: int, b: int|
                0 <= a < sk.len() && 0 <= b < sk.len() ==> (roots@[a] == roots@[b]) == linked(
                    alike_pairs(sk),
                    sk.len(),
                    a,
                    b,
                ),
        decreases roots@.len() - i,
    {
        let mut j: usize = 0;
        while j < i && roots[j] != roots[i]
            invariant
                j <= i < roots@.len(),
                roots@.len() == sk.len(),
                n == sk.len(),
                pairs == alike_pairs(sk),
                forall|k: int| 0 <= k < j ==> !linked(pairs, n, k, i as int),
                forall|a: int, b: int|
                    0 <= a < sk.len() && 0 <= b < sk.len() ==> (roots@[a] == roots@[b]) == linked(
                        alike_pairs(sk),
                        sk.len(),
                        a,
                        b,
                    ),
            decreases i - j,
        {
            assert((roots@[j as int] == roots@[i as int]) == linked(pairs, n, j as int, i as int));
            j += 1;
        }
        proof {
            assert((roots@[j as int] == roots@[i as int]) == linked(pairs, n, j as int, i as int));
            lemma_least(pairs, n, i as int, 0, j as int);
        }
        out.push(Some(j));
        i += 1;
        assert(link_labels(sk).take(i as int) =~= link_labels(sk).take(i - 1).push(
            link_labels(sk)[i - 1],
        ));
    }
    assert(link_labels(sk).take(n as int) =~= link_labels(sk));
    out
}

/// The lowest percentage of each label.
fn lowest_of(
    edges: &Vec<(usize, u64)>,
    labels: &Vec<Option<usize>>,
    Ghost(sk): Ghost<Seq<Seq<u64>>>,
) -> (out: Vec<u64>)
    requires
        labels@ == link_labels(sk),
        labels@.len() == sk.len(),
        forall|i: int|
            0 <= i < labels@.len() ==> ((#[trigger] labels@[i]) matches Some(l) && l <= i),
        lists(sk, alike_pairs(sk), edges@),
    ensures
        out@.len() == sk.len(),
        forall|h: usize| h < sk.len() ==> (#[trigger] out@[h as int]) == lowest(sk, h),
{
    let n: usize = labels.len();
    let ghost pairs = alike_pairs(sk);
    let mut out: Vec<u64> = Vec::new();
    let mut k: usize = 0;
    while k < n
        invariant
            k <= n,
            out@.len() == k,
            forall|h: int| 0 <= h < k ==> (#[trigger] out@[h]) == 100,
        decreases n - k,
    {
        out.push(100);
        k += 1;
    }
    let mut i: usize = 0;
    while i < edges.len()
        invariant
            i <= edges@.len(),
            n == labels@.len(),
            n == sk.len(),
            pairs == alike_pairs(sk),
            labels@ == link_labels(sk),
            forall|x: int|
                0 <= x < labels@.len() ==> ((#[trigger] labels@[x]) matches Some(l) && l <= x),
            lists(sk, pairs, edges@),
            out@.len() == n,
            forall|h: int, x: int|
                0 <= h < n && 0 <= x < i && labels@[(#[trigger] edges@[x]).0 as int] == Some(
                    h as usize,
                ) ==> (#[trigger] out@[h]) <= edges@[x].1,
            forall|h: int|
                0 <= h < n ==> (#[trigger] out@[h]) == 100 || (out@[h] < 100 && lowest_edge(
                    edges@,
                    labels@,
                    i as int,
                    h as usize,
                    out@[h],
                )),
        decreases edges@.len() - i,
    {
        let ghost before = out@;
        proof {
            assert(from_pair(sk, pairs, edges@[i as int]));
            let b = choose|b: int| #[trigger]
                pairs.contains((edges@[i as int].0 as int, b)) && edges@[i as int].1 == percent(
                    sk[edges@[i as int].0 as int],
                    sk[b],
                );
            assert(pairs.contains((edges@[i as int].0 as int, b)));
            assert(edges@[i as int].0 < n);
        }
        let (a, pct): (usize, u64) = edges[i];
        assert(labels@[a as int] is Some);
        if let Some(l) = labels[a] {
            if pct < out[l] {
                out.set(l, pct);
            }
        }
        i += 1;
        proof {
            assert forall|h: int| 0 <= h < n implies (#[trigger] out@[h]) == 100 || (out@[h] < 100
                && lowest_edge(edges@, labels@, i as int, h as usize, out@[h])) by {
                if out@[h] == before[h] {
                    if before[h] != 100 {
                        assert(lowest_edge(edges@, labels@, i - 1, h as usize, before[h]));
                        let x = choose|x: int|
                            0 <= x < i - 1 && labels@[(#[trigger] edges@[x]).0 as int] == Some(
                                h as usize,
                            ) && edges@[x].1 == before[h];
                        assert(edges@[x].1 == out@[h]);
                    }
                } else {
                    assert(edges@[i - 1].1 == out@[h]);
                }
            }
        }
    }
    proof {
        assert forall|h: usize| h < sk.len() implies (#[trigger] out@[h as int]) == lowest(
            sk,
            h,
        ) by {
            let p = out@[h as int] as nat;
            assert forall|a: int, b: int| #[trigger]
                pairs.contains((a, b)) && link_labels(sk)[a] == Some(h) implies p <= percent(
                sk[a],
                sk[b],
            ) by {
                assert(has_entry(edges@, a, percent(sk[a], sk[b])));
                let x = choose|x: int|
                    0 <= x < edges@.len() && (#[trigger] edges@[x]).0 == a && edges@[x].1
                        == percent(sk[a], sk[b]);
                assert(labels@[edges@[x].0 as int] == Some(h));
                assert(out@[h as int] <= edges@[x].1);
            }
            if p != 100 {
                assert(lowest_edge(edges@, labels@, edges@.len() as int, h, out@[h as int]));
                let x = choose|x: int|
                    0 <= x < edges@.len() && labels@[(#[trigger] edges@[x]).0 as int] == Some(h)
                        && edges@[x].1 == out@[h as int];
                assert(from_pair(sk, pairs, edges@[x]));
                let b = choose|b: int| #[trigger]
                    pairs.contains((edges@[x].0 as int, b)) && edges@[x].1 == percent(
                        sk[edges@[x].0 as int],
                        sk[b],
                    );
                assert(pairs.contains((edges@[x].0 as int, b)) && link_labels(
                    sk,
                )[edges@[x].0 as int] == Some(h) && p == percent(sk[edges@[x].0 as int], sk[b]));
            }
            assert(is_lowest(sk, h, p));
            lemma_lowest(sk, h, p);
        }
    }
    out
}

spec fn lowest_edge(
    edges: Seq<(usize, u64)>,
    labels: Seq<Option<usize>>,
    n: int,
    h: usize,
    p: u64,
) -> bool {
    exists|x: int|
        0 <= x < n && labels[(#[trigger] edges[x]).0 as int] == Some(h) && edges[x].1 == p
}

/// The files of a group of documents.
pub open spec fn group_files(docs: Seq<usize>, g: Seq<usize>) -> Seq<usize> {
    Seq::new(g.len(), |k: int| docs[g[k] as int])
}

/// The largest size among the first `n` files of a group.
pub open spec fn largest(files: Seq<FileV>, g: Seq<usize>, n: int) -> u64
    decreases n,
{
    if n <= 0 {
        0
    } else {
        let before = largest(files, g, n - 1);
        let size = files[g[n - 1] as int].size;
        if size > before {
            size
        } else {
            before
        }
    }
}

/// The groups among documents, each with its lowest percentage.
pub open spec fn found_groups(files: Seq<FileV>, docs: Seq<usize>) -> Seq<(u64, Seq<usize>)> {
    let sk = sketches_of(files, docs);
    let labels = link_labels(sk);
    let gs = groups_of(labels);
    Seq::new(
        gs.len(),
        |i: int|
            (lowest(sk, labels[gs[i][0] as int]->0) as u64, group_files(docs, gs[i])),
    )
}

/// The size by which each group is placed.
pub open spec fn group_keys(files: Seq<FileV>, list: Seq<(u64, Seq<usize>)>) -> Seq<u64> {
    Seq::new(list.len(), |i: int| largest(files, list[i].1, list[i].1.len() as int))
}

/// The groups of similar documents with one extension, the one with the largest
/// file first.
pub open spec fn similar_in(files: Seq<FileV>, ext: Seq<char>, taken: Set<Seq<char>>) -> Seq<
    (u64, Seq<usize>),
> {
    let list = found_groups(files, documents(files, ext, taken));
    let r = ranked(group_keys(files, list), list.len() as int);
    Seq::new(list.len(), |i: int| list[r[i] as int])
}

/// The warning that there are more documents than are compared.
pub open spec fn too_many_text(ext: Seq<char>, n: nat) -> Seq<char> {
    "."@ + ext + " 文档 "@ + dec(n) + " 个超出相似检测上限，仅分析前 "@ + dec(SIM_MAX_DOCS as nat) + " 个"@
}

/// The warning that the comparisons were used up.
pub open spec fn used_up_text(ext: Seq<char>) -> Seq<char> {
    "."@ + ext + " 相似比较次数达上限，部分文档未参与聚类"@
}

/// What is reported about the documents with one extension.
pub open spec fn similar_warnings(files: Seq<FileV>, ext: Seq<char>, taken: Set<Seq<char>>) -> Seq<
    EventV,
> {
    let n = candidates(files, ext, taken, files.len() as int).len();
    let many = if n > SIM_MAX_DOCS {
        seq![EventV::Warn(too_many_text(ext, n))]
    } else {
        Seq::empty()
    };
    let capped = if used_up(lengths(sketches_of(files, documents(files, ext, taken)))) {
        seq![EventV::Warn(used_up_text(ext))]
    } else {
        Seq::empty()
    };
    many + capped
}

/// The groups of similar documents with one of the first `k` extensions.
pub open spec fn similar_groups(files: Seq<FileV>, taken: Set<Seq<char>>, k: int) -> Seq<
    (u64, Seq<usize>),
>
    decreases k,
{
    if k <= 0 {
        Seq::empty()
    } else {
        similar_groups(files, taken, k - 1) + similar_in(files, sim_exts()[k - 1], taken)
    }
}

/// What is reported about documents with one of the first `k` extensions.
pub open spec fn all_warnings(files: Seq<FileV>, taken: Set<Seq<char>>, k: int) -> Seq<EventV>
    decreases k,
{
    if k <= 0 {
        Seq::empty()
    } else {
        all_warnings(files, taken, k - 1) + similar_warnings(files, sim_exts()[k - 1], taken)
    }
}

/// The values of a list of groups with a number each.
pub open spec fn scored_views(v: Seq<(u64, Vec<usize>)>) -> Seq<(u64, Seq<usize>)> {
    Seq::new(v.len(), |i: int| (v[i].0, v[i].1@))
}

/// Whether a size is one that is compared and a path has an extension of a
/// document.
pub fn wants_sketch(path: &str, size: u64) -> (out: Option<String>)
    ensures
        match out {
            Some(e) => sim_size(size) && sim_exts().contains(e@) && (extension_of(path@) matches Some(
                x,
            ) && lowercase(x) == e@),
            None => !sim_size(size) || !(extension_of(path@) matches Some(x) && sim_exts().contains(
                lowercase(x),
            )),
        },
{
    if size < SIM_MIN_BYTES || size > SIM_MAX_BYTES {
        return None;
    }
    match extension(path) {
        None => None,
        Some(e) => {
            let low: String = e.to_lowercase();
            let mut k: usize = 0;
            while k < SIM_EXT_COUNT
                invariant
                    k <= SIM_EXT_COUNT,
                    low@ == lowercase(e@),
                    extension_of(path@) == Some(e@),
                    sim_size(size),
                    forall|j: int| 0 <= j < k ==> sim_exts()[j] != low@,
                decreases SIM_EXT_COUNT - k,
            {
                if same(low.as_str(), sim_ext(k)) {
                    assert(sim_exts()[k as int] == low@);
                    return Some(low);
                }
                k += 1;
            }
            None
        },
    }
}

/// The documents with an extension that may be compared.
fn find_candidates(files: &Vec<FileInfo>, ext: &str, taken: &StringHashSet) -> (out: Vec<usize>)
    ensures
        out@ == candidates(file_views(files@), ext@, taken@, files@.len() as int),
        forall|i: int| 0 <= i < out@.len() ==> (#[trigger] out@[i]) < files@.len(),
{
    let ghost fv = file_views(files@);
    let mut out: Vec<usize> = Vec::new();
    let mut i: usize = 0;
    while i < files.len()
        invariant
            i <= files@.len(),
            fv == file_views(files@),
            out@ == candidates(fv, ext@, taken@, i as int),
            forall|k: int| 0 <= k < out@.len() ==> (#[trigger] out@[k]) < i,
        decreases files@.len() - i,
    {
        let f: &FileInfo = &files[i];
        assert(fv[i as int] == f.view());
        let fits: bool = f.size >= SIM_MIN_BYTES && f.size <= SIM_MAX_BYTES && !taken.contains(
            f.path.as_str(),
        ) && match extension(f.path.as_str()) {
            Some(e) => same(e.to_lowercase().as_str(), ext),
            None => false,
        };
        assert(fits == eligible(fv[i as int], ext@, taken@));
        if fits {
            out.push(i);
        }
        i += 1;
    }
    out
}

/// The documents with an extension that are compared, small sketches first.
fn find_documents(files: &Vec<FileInfo>, all: &Vec<usize>) -> (out: Vec<usize>)
    requires
        forall|i: int| 0 <= i < all@.len() ==> (#[trigger] all@[i]) < files@.len(),
    ensures
        ({
            let fv = file_views(files@);
            let first = if all@.len() > SIM_MAX_DOCS {
                all@.take(SIM_MAX_DOCS as int)
            } else {
                all@
            };
            let list = with_sketch(fv, first, first.len() as int);
            let r = ranked(length_keys(fv, list), list.len() as int);
            out@ == Seq::new(list.len(), |i: int| list[r[i] as int])
        }),
        forall|i: int|
            0 <= i < out@.len() ==> (#[trigger] out@[i]) < files@.len()
                && files@[out@[i] as int].sketch is Some,
{
    let ghost fv = file_views(files@);
    let stop: usize = if all.len() > SIM_MAX_DOCS {
        SIM_MAX_DOCS
    } else {
        all.len()
    };
    let ghost first = all@.take(stop as int);
    assert(all@.len() <= SIM_MAX_DOCS ==> first =~= all@);
    let mut list: Vec<usize> = Vec::new();
    let mut keys: Vec<u64> = Vec::new();
    let mut i: usize = 0;
    assert(keys@ =~= length_keys(fv, list@));
    while i < stop
        invariant
            i <= stop <= all@.len(),
            first == all@.take(stop as int),
            fv == file_views(files@),
            forall|k: int| 0 <= k < all@.len() ==> (#[trigger] all@[k]) < files@.len(),
            list@ == with_sketch(fv, first, i as int),
            forall|k: int|
                0 <= k < list@.len() ==> (#[trigger] list@[k]) < files@.len()
                    && files@[list@[k] as int].sketch is Some,
            keys@ == length_keys(fv, list@),
        decreases stop - i,
    {
        let at: usize = all[i];
        assert(first[i as int] == at);
        assert(fv[at as int] == files@[at as int].view());
        match &files[at].sketch {
            Some(s) => {
                let n: usize = s.len();
                assert(fv[at as int].sketch == Some(s.view()));
                if n >= SIM_MIN_SHINGLES {
                    list.push(at);
                    keys.push(u64::MAX - n as u64);
                    assert(keys@ =~= length_keys(fv, list@));
                }
            },
            None => {},
        }
        i += 1;
    }
    let r: Vec<usize> = order_desc(&keys);
    proof {
        law_ranked(keys@, keys@.len() as int);
    }
    let mut out: Vec<usize> = Vec::new();
    let mut k: usize = 0;
    while k < r.len()
        invariant
            k <= r@.len(),
            r@.len() == list@.len(),
            forall|a: int| 0 <= a < r@.len() ==> (#[trigger] r@[a]) < list@.len(),
            forall|a: int|
                0 <= a < list@.len() ==> (#[trigger] list@[a]) < files@.len()
                    && files@[list@[a] as int].sketch is Some,
            out@.len() == k,
            forall|a: int| 0 <= a < k ==> (#[trigger] out@[a]) == list@[r@[a] as int],
        decreases r@.len() - k,
    {
        out.push(list[r[k]]);
        k += 1;
    }
    assert forall|a: int| 0 <= a < out@.len() implies (#[trigger] out@[a]) < files@.len()
        && files@[out@[a] as int].sketch is Some by {
        assert(out@[a] == list@[r@[a] as int]);
        assert(r@[a] < list@.len());
    }
    assert(out@ =~= Seq::new(list@.len(), |i: int| list@[r@[i] as int]));
    out
}

/// The largest size in a group.
fn largest_size(files: &Vec<FileInfo>, g: &Vec<usize>) -> (out: u64)
    requires
        forall|i: int| 0 <= i < g@.len() ==> (#[trigger] g@[i]) < files@.len(),
    ensures
        out == largest(file_views(files@), g@, g@.len() as int),
{
    let mut m: u64 = 0;
    let mut i: usize = 0;
    while i < g.len()
        invariant
            i <= g@.len(),
            forall|k: int| 0 <= k < g@.len() ==> (#[trigger] g@[k]) < files@.len(),
            m == largest(file_views(files@), g@, i as int),
        decreases g@.len() - i,
    {
        let at: usize = g[i];
        assert(file_views(files@)[at as int] == files@[at as int].view());
        if files[at].size > m {
            m = files[at].size;
        }
        i += 1;
    }
    m
}

/// Puts groups into the given order.
fn arrange(list: Vec<(u64, Vec<usize>)>, r: &Vec<usize>) -> (out: Vec<(u64, Vec<usize>)>)
    requires
        forall|i: int| 0 <= i < r@.len() ==> (#[trigger] r@[i]) < list@.len(),
    ensures
        scored_views(out@) == Seq::new(
            r@.len(),
            |i: int| scored_views(list@)[r@[i] as int],
        ),
{
    let mut out: Vec<(u64, Vec<usize>)> = Vec::new();
    let mut i: usize = 0;
    while i < r.len()
        invariant
            i <= r@.len(),
            forall|k: int| 0 <= k < r@.len() ==> (#[trigger] r@[k]) < list@.len(),
            out@.len() == i,
            forall|k: int|
                0 <= k < i ==> scored_views(out@)[k] == scored_views(
                    list@,
                )[#[trigger] r@[k] as int],
        decreases r@.len() - i,
    {
        let e: &(u64, Vec<usize>) = &list[r[i]];
        let ghost before = out@;
        out.push((e.0, copy_group(&e.1)));
        assert forall|k: int| 0 <= k < i + 1 implies scored_views(out@)[k] == scored_views(
            list@,
        )[#[trigger] r@[k] as int] by {
            if k < i {
                assert(scored_views(before)[k] == scored_views(out@)[k]);
            }
        }
        i += 1;
    }
    assert(scored_views(out@) =~= Seq::new(
        r@.len(),
        |i: int| scored_views(list@)[r@[i] as int],
    ));
    out
}

/// The groups among documents, each with its lowest percentage, the one with the
/// largest file first; and whether the comparisons were used up.
fn group_documents(files: &Vec<FileInfo>, docs: &Vec<usize>) -> (out: (Vec<(u64, Vec<usize>)>, bool))
    requires
        forall|i: int|
            0 <= i < docs@.len() ==> (#[trigger] docs@[i]) < files@.len()
                && files@[docs@[i] as int].sketch is Some,
    ensures
        ({
            let fv = file_views(files@);
            let list = found_groups(fv, docs@);
            let r = ranked(group_keys(fv, list), list.len() as int);
            scored_views(out.0@) == Seq::new(list.len(), |i: int| list[r[i] as int])
        }),
        out.1 == used_up(lengths(sketches_of(file_views(files@), docs@))),
        forall|i: int, k: int|
            0 <= i < out.0@.len() && 0 <= k < out.0@[i].1@.len() ==> (#[trigger] out.0@[i].1@[k])
                < files@.len(),
{
    let ghost fv = file_views(files@);
    let mut sk: Vec<&Sketch> = Vec::new();
    let mut i: usize = 0;
    while i < docs.len()
        invariant
            i <= docs@.len(),
            fv == file_views(files@),
            forall|k: int|
                0 <= k < docs@.len() ==> (#[trigger] docs@[k]) < files@.len()
                    && files@[docs@[k] as int].sketch is Some,
            sk@.len() == i,
            forall|k: int|
                0 <= k < i ==> (#[trigger] sk@[k]).view() == sketches_of(fv, docs@)[k],
        decreases docs@.len() - i,
    {
        let at: usize = docs[i];
        assert(fv[at as int] == files@[at as int].view());
        if let Some(s) = &files[at].sketch {
            sk.push(s);
        }
        i += 1;
    }
    let ghost sv = sketches_of(fv, docs@);
    assert(sketches(sk@) =~= sv);
    let (roots, edges, capped) = link_alike(&sk);
    let labels: Vec<Option<usize>> = first_linked(&roots, Ghost(sv));
    let low: Vec<u64> = lowest_of(&edges, &labels, Ghost(sv));
    let gs: Vec<Vec<usize>> = group_labels(&labels);
    proof {
        law_groups(labels@);
    }
    let ghost goal = found_groups(fv, docs@);
    let mut list: Vec<(u64, Vec<usize>)> = Vec::new();
    let mut keys: Vec<u64> = Vec::new();
    let mut g: usize = 0;
    while g < gs.len()
        invariant
            g <= gs@.len(),
            fv == file_views(files@),
            sv == sketches_of(fv, docs@),
            labels@ == link_labels(sv),
            goal == found_groups(fv, docs@),
            group_views(gs@) == groups_of(labels@),
            labels@.len() == docs@.len(),
            low@.len() == docs@.len(),
            forall|h: usize| h < sv.len() ==> (#[trigger] low@[h as int]) == lowest(sv, h),
            sv.len() == docs@.len(),
            forall|x: int|
                0 <= x < labels@.len() ==> ((#[trigger] labels@[x]) matches Some(l) && l <= x),
            forall|x: int|
                0 <= x < groups_of(labels@).len() ==> (#[trigger] groups_of(labels@)[x]).len() >= 2,
            forall|x: int, k: int|
                0 <= x < groups_of(labels@).len() && 0 <= k < groups_of(labels@)[x].len() ==> (
                #[trigger] groups_of(labels@)[x][k]) < labels@.len(),
            forall|k: int|
                0 <= k < docs@.len() ==> (#[trigger] docs@[k]) < files@.len()
                    && files@[docs@[k] as int].sketch is Some,
            list@.len() == g,
            keys@.len() == g,
            forall|x: int|
                0 <= x < g ==> (#[trigger] scored_views(list@)[x]) == goal[x] && keys@[x] == largest(
                    fv,
                    goal[x].1,
                    goal[x].1.len() as int,
                ),
            forall|x: int, k: int|
                0 <= x < g && 0 <= k < list@[x].1@.len() ==> (#[trigger] list@[x].1@[k])
                    < files@.len(),
        decreases gs@.len() - g,
    {
        let ghost gv = groups_of(labels@)[g as int];
        assert(group_views(gs@)[g as int] == gs@[g as int]@);
        assert(gv.len() >= 2);
        let mut members: Vec<usize> = Vec::new();
        let mut k: usize = 0;
        while k < gs[g].len()
            invariant
                g < gs@.len(),
                gv == gs@[g as int]@,
                k <= gv.len(),
                forall|x: int| 0 <= x < gv.len() ==> (#[trigger] gv[x]) < docs@.len(),
                forall|x: int| 0 <= x < docs@.len() ==> (#[trigger] docs@[x]) < files@.len(),
                members@.len() == k,
                forall|x: int|
                    0 <= x < k ==> (#[trigger] members@[x]) == docs@[gv[x] as int] && members@[x]
                        < files@.len(),
            decreases gv.len() - k,
        {
            let at: usize = gs[g][k];
            assert(gv[k as int] == at);
            members.push(docs[at]);
            k += 1;
        }
        assert(members@ =~= group_files(docs@, gv));
        let head: usize = gs[g][0];
        assert(gv[0] == head);
        assert(labels@[head as int] is Some);
        let score: u64 = match labels[head] {
            Some(l) => low[l],
            None => 100,
        };
        let key: u64 = largest_size(files, &members);
        let ghost before = list@;
        list.push((score, members));
        keys.push(key);
        assert(scored_views(list@)[g as int] == goal[g as int]);
        assert forall|x: int| 0 <= x < g + 1 implies (#[trigger] scored_views(list@)[x]) == goal[x]
            && keys@[x] == largest(fv, goal[x].1, goal[x].1.len() as int) by {
            if x < g {
                assert(scored_views(before)[x] == goal[x]);
                assert(scored_views(list@)[x] == scored_views(before)[x]);
            }
        }
        g += 1;
    }
    assert(scored_views(list@) =~= goal);
    assert(keys@ =~= group_keys(fv, goal));
    let r: Vec<usize> = order_desc(&keys);
    proof {
        law_ranked(keys@, keys@.len() as int);
    }
    let out: Vec<(u64, Vec<usize>)> = arrange(list, &r);
    assert(scored_views(out@) =~= Seq::new(goal.len(), |i: int| goal[r@[i] as int]));
    assert forall|i: int, k: int|
        0 <= i < out@.len() && 0 <= k < out@[i].1@.len() implies (#[trigger] out@[i].1@[k])
        < files@.len() by {
        assert(scored_views(out@)[i] == (out@[i].0, out@[i].1@));
        assert(scored_views(list@)[r@[i] as int] == goal[r@[i] as int]);
        assert(r@[i] < list@.len());
        assert(list@[r@[i] as int].1@[k] < files@.len());
    }
    (out, capped)
}

/// The groups of similar documents among the files that are not yet in a group.
/// Each group has the lowest percentage of the pairs in it and the positions of
/// its files.
pub fn find_similar_doc_groups(
    files: &Vec<FileInfo>,
    taken: &StringHashSet,
    out: &mut Vec<Event>,
) -> (groups: Vec<(u64, Vec<usize>)>)
    ensures
        scored_views(groups@) == similar_groups(
            file_views(files@),
            taken@,
            SIM_EXT_COUNT as int,
        ),
        events(final(out)@) == events(old(out)@) + all_warnings(
            file_views(files@),
            taken@,
            SIM_EXT_COUNT as int,
        ),
        forall|i: int, k: int|
            0 <= i < groups@.len() && 0 <= k < groups@[i].1@.len() ==> (
            #[trigger] groups@[i].1@[k]) < files@.len(),
{
    let ghost fv = file_views(files@);
    let ghost start = events(out@);
    let mut groups: Vec<(u64, Vec<usize>)> = Vec::new();
    let mut k: usize = 0;
    assert(scored_views(groups@) =~= Seq::empty());
    assert(start + Seq::<EventV>::empty() =~= start);
    while k < SIM_EXT_COUNT
        invariant
            k <= SIM_EXT_COUNT,
            fv == file_views(files@),
            scored_views(groups@) == similar_groups(fv, taken@, k as int),
            events(out@) == start + all_warnings(fv, taken@, k as int),
            forall|i: int, j: int|
                0 <= i < groups@.len() && 0 <= j < groups@[i].1@.len() ==> (
                #[trigger] groups@[i].1@[j]) < files@.len(),
        decreases SIM_EXT_COUNT - k,
    {
        let ext: &'static str = sim_ext(k);
        let ghost before = events(out@);
        let all: Vec<usize> = find_candidates(files, ext, taken);
        if all.len() > SIM_MAX_DOCS {
            let mut m: String = ".".to_owned();
            m.append(ext);
            m.append(" 文档 ");
            m.append(decimal(all.len() as u64).as_str());
            m.append(" 个超出相似检测上限，仅分析前 ");
            m.append(decimal(SIM_MAX_DOCS as u64).as_str());
            m.append(" 个");
            proof {
                lemma_events_push(out@, Event::Warn(m));
            }
            out.push(Event::Warn(m));
        }
        let ghost middle = events(out@);
        let docs: Vec<usize> = find_documents(files, &all);
        let (more, capped) = group_documents(files, &docs);
        assert(docs@ =~= documents(fv, ext@, taken@));
        if capped {
            let mut m: String = ".".to_owned();
            m.append(ext);
            m.append(" 相似比较次数达上限，部分文档未参与聚类");
            proof {
                lemma_events_push(out@, Event::Warn(m));
            }
            out.push(Event::Warn(m));
        }
        assert(events(out@) =~= before + similar_warnings(fv, ext@, taken@));
        let ghost had = groups@;
        let ghost added = more@;
        let mut more: Vec<(u64, Vec<usize>)> = more;
        groups.append(&mut more);
        assert(scored_views(groups@) =~= scored_views(had) + scored_views(added));
        assert(scored_views(added) == similar_in(fv, ext@, taken@));
        assert forall|i: int, j: int|
            0 <= i < groups@.len() && 0 <= j < groups@[i].1@.len() implies (
        #[trigger] groups@[i].1@[j]) < files@.len() by {
            if i < had.len() {
                assert(had[i].1@[j] < files@.len());
            } else {
                assert(added[i - had.len()].1@[j] < files@.len());
            }
        }
        k += 1;
        assert(events(out@) =~= start + all_warnings(fv, taken@, k as int));
    }
    groups
}

proof fn lemma_with_sketch(files: Seq<FileV>, list: Seq<usize>, n: int)
    requires
        0 <= n,
    ensures
        with_sketch(files, list, n).len() <= n,
    decreases n,
{
    if n > 0 {
        lemma_with_sketch(files, list, n - 1);
    }
}

/// There are no more groups of similar documents than documents compared.
pub proof fn lemma_similar_number(files: Seq<FileV>, taken: Set<Seq<char>>, k: int)
    requires
        0 <= k,
    ensures
        similar_groups(files, taken, k).len() <= k * SIM_MAX_DOCS,
    decreases k,
{
    if k > 0 {
        lemma_similar_number(files, taken, k - 1);
        let ext = sim_exts()[k - 1];
        let all = candidates(files, ext, taken, files.len() as int);
        let first = if all.len() > SIM_MAX_DOCS {
            all.take(SIM_MAX_DOCS as int)
        } else {
            all
        };
        lemma_with_sketch(files, first, first.len() as int);
        let docs = documents(files, ext, taken);
        let labels = link_labels(sketches_of(files, docs));
        lemma_group_number(labels, labels.len() as int);
    }
}

/// Whether a list holds the positions of files, each once, in order.
spec fn rising(list: Seq<usize>, n: nat) -> bool {
    &&& forall|i: int| 0 <= i < list.len() ==> (#[trigger] list[i]) < n
    &&& forall|i: int, j: int|
        0 <= i < j < list.len() ==> (#[trigger] list[i]) < (#[trigger] list[j])
}

proof fn lemma_candidates(files: Seq<FileV>, ext: Seq<char>, taken: Set<Seq<char>>, n: int)
    requires
        0 <= n <= files.len() <= usize::MAX,
    ensures
        rising(candidates(files, ext, taken, n), n as nat),
        forall|i: int|
            0 <= i < candidates(files, ext, taken, n).len() ==> eligible(
                files[(#[trigger] candidates(files, ext, taken, n)[i]) as int],
                ext,
                taken,
            ),
    decreases n,
{
    if n > 0 {
        lemma_candidates(files, ext, taken, n - 1);
    }
}

proof fn lemma_sketched(
    files: Seq<FileV>,
    list: Seq<usize>,
    ext: Seq<char>,
    taken: Set<Seq<char>>,
    n: int,
)
    requires
        0 <= n <= list.len(),
        rising(list, files.len()),
        forall|i: int|
            0 <= i < list.len() ==> eligible(files[(#[trigger] list[i]) as int], ext, taken),
    ensures
        rising(with_sketch(files, list, n), files.len()),
        forall|i: int|
            0 <= i < with_sketch(files, list, n).len() ==> eligible(
                files[(#[trigger] with_sketch(files, list, n)[i]) as int],
                ext,
                taken,
            ),
        n > 0 && with_sketch(files, list, n).len() > 0 ==> with_sketch(files, list, n).last()
            <= list[n - 1],
    decreases n,
{
    if n > 0 {
        lemma_sketched(files, list, ext, taken, n - 1);
        let before = with_sketch(files, list, n - 1);
        let now = with_sketch(files, list, n);
        if n > 1 {
            assert(list[n - 2] < list[n - 1]);
        }
        if before.len() > 0 {
            assert forall|i: int| 0 <= i < before.len() implies (#[trigger] before[i])
                <= before.last() by {
                if i < before.len() - 1 {
                    assert(before[i] < before[before.len() - 1]);
                }
            }
        }
    }
}

/// The documents that are compared are files, each once, that may be compared.
proof fn lemma_documents(files: Seq<FileV>, ext: Seq<char>, taken: Set<Seq<char>>)
    requires
        files.len() <= usize::MAX,
    ensures
        forall|i: int|
            0 <= i < documents(files, ext, taken).len() ==> (#[trigger] documents(
                files,
                ext,
                taken,
            )[i]) < files.len() && eligible(
                files[documents(files, ext, taken)[i] as int],
                ext,
                taken,
            ),
        forall|i: int, j: int|
            0 <= i < j < documents(files, ext, taken).len() ==> (#[trigger] documents(
                files,
                ext,
                taken,
            )[i]) != (#[trigger] documents(files, ext, taken)[j]),
{
    let all = candidates(files, ext, taken, files.len() as int);
    lemma_candidates(files, ext, taken, files.len() as int);
    let first = if all.len() > SIM_MAX_DOCS {
        all.take(SIM_MAX_DOCS as int)
    } else {
        all
    };
    assert(rising(first, files.len()));
    assert forall|i: int| 0 <= i < first.len() implies eligible(
        files[(#[trigger] first[i]) as int],
        ext,
        taken,
    ) by {
        assert(first[i] == all[i]);
    }
    lemma_sketched(files, first, ext, taken, first.len() as int);
    lemma_with_sketch(files, first, first.len() as int);
    let list = with_sketch(files, first, first.len() as int);
    let keys = length_keys(files, list);
    law_ranked(keys, list.len() as int);
    let r = ranked(keys, list.len() as int);
    let docs = documents(files, ext, taken);
    assert forall|i: int| 0 <= i < docs.len() implies (#[trigger] docs[i]) < files.len()
        && eligible(files[docs[i] as int], ext, taken) by {
        assert(r[i] < list.len());
        assert(docs[i] == list[r[i] as int]);
    }
    assert forall|i: int, j: int| 0 <= i < j < docs.len() implies (#[trigger] docs[i]) != (
    #[trigger] docs[j]) by {
        assert(r[i] != r[j]);
        assert(r[i] < list.len() && r[j] < list.len());
        if r[i] < r[j] {
            assert(list[r[i] as int] < list[r[j] as int]);
        } else {
            assert(list[r[j] as int] < list[r[i] as int]);
        }
    }
}

/// The members of groups with a number each.
pub open spec fn members(list: Seq<(u64, Seq<usize>)>) -> Seq<Seq<usize>> {
    Seq::new(list.len(), |i: int| list[i].1)
}

proof fn lemma_similar_in(files: Seq<FileV>, ext: Seq<char>, taken: Set<Seq<char>>)
    requires
        files.len() <= usize::MAX,
    ensures
        separate(members(similar_in(files, ext, taken))),
        forall|x: int, i: int|
            0 <= x < similar_in(files, ext, taken).len() && 0 <= i < members(
                similar_in(files, ext, taken),
            )[x].len() ==> (#[trigger] members(similar_in(files, ext, taken))[x][i]) < files.len()
                && eligible(
                files[members(similar_in(files, ext, taken))[x][i] as int],
                ext,
                taken,
            ),
{
    let docs = documents(files, ext, taken);
    lemma_documents(files, ext, taken);
    assert(docs.len() <= usize::MAX) by {
        let all = candidates(files, ext, taken, files.len() as int);
        let first = if all.len() > SIM_MAX_DOCS {
            all.take(SIM_MAX_DOCS as int)
        } else {
            all
        };
        lemma_with_sketch(files, first, first.len() as int);
    }
    let sk = sketches_of(files, docs);
    let labels = link_labels(sk);
    let gs = groups_of(labels);
    law_separate(labels);
    law_groups(labels);
    lemma_group_number(labels, labels.len() as int);
    let list = found_groups(files, docs);
    let keys = group_keys(files, list);
    law_ranked(keys, list.len() as int);
    let r = ranked(keys, list.len() as int);
    let out = members(similar_in(files, ext, taken));
    assert forall|x: int, i: int| 0 <= x < out.len() && 0 <= i < out[x].len() implies (
    #[trigger] out[x][i]) < files.len() && eligible(files[out[x][i] as int], ext, taken)
        && r[x] < gs.len() && i < gs[r[x] as int].len() && gs[r[x] as int][i] < docs.len()
        && out[x][i] == docs[gs[r[x] as int][i] as int] by {
        assert(r[x] < gs.len());
        assert(out[x] == group_files(docs, gs[r[x] as int]));
        assert(gs[r[x] as int][i] < labels.len());
    }
    assert forall|x: int, i: int, y: int, j: int|
        0 <= x < y < out.len() && 0 <= i < out[x].len() && 0 <= j < out[y].len() implies (
    #[trigger] out[x][i]) != (#[trigger] out[y][j]) by {
        assert(r[x] != r[y]);
        let a = gs[r[x] as int][i];
        let b = gs[r[y] as int][j];
        if r[x] < r[y] {
            assert(gs[r[x] as int][i] != gs[r[y] as int][j]);
        } else {
            assert(gs[r[y] as int][j] != gs[r[x] as int][i]);
        }
        if a < b {
            assert(docs[a as int] != docs[b as int]);
        } else {
            assert(docs[b as int] != docs[a as int]);
        }
    }
}

/// No file is in two groups of similar documents, and none of them was in a group
/// before.
pub proof fn law_similar_separate(files: Seq<FileV>, taken: Set<Seq<char>>, k: int)
    requires
        files.len() <= usize::MAX,
        0 <= k <= SIM_EXT_COUNT,
    ensures
        separate(members(similar_groups(files, taken, k))),
        forall|x: int, i: int|
            0 <= x < similar_groups(files, taken, k).len() && 0 <= i < members(
                similar_groups(files, taken, k),
            )[x].len() ==> (#[trigger] members(similar_groups(files, taken, k))[x][i])
                < files.len() && in_exts(
                files[members(similar_groups(files, taken, k))[x][i] as int],
                taken,
                k,
            ),
    decreases k,
{
    if k > 0 {
        law_similar_separate(files, taken, k - 1);
        let ext = sim_exts()[k - 1];
        lemma_similar_in(files, ext, taken);
        lemma_exts_differ();
        let a = members(similar_groups(files, taken, k - 1));
        let b = members(similar_in(files, ext, taken));
        let out = members(similar_groups(files, taken, k));
        assert(out =~= a + b);
        assert forall|x: int, i: int| 0 <= x < out.len() && 0 <= i < out[x].len() implies (
        #[trigger] out[x][i]) < files.len() && in_exts(files[out[x][i] as int], taken, k) && (x
            < a.len() ==> in_exts(files[out[x][i] as int], taken, k - 1)) && (x >= a.len()
            ==> eligible(files[out[x][i] as int], ext, taken)) by {
            if x < a.len() {
                assert(out[x] == a[x]);
                let f = files[a[x][i] as int];
                assert(in_exts(f, taken, k - 1));
                let e = choose|e: int| 0 <= e < k - 1 && eligible(f, #[trigger] sim_exts()[e], taken);
                assert(eligible(f, sim_exts()[e], taken));
            } else {
                assert(out[x] == b[x - a.len()]);
                let f = files[b[x - a.len()][i] as int];
                assert(eligible(f, sim_exts()[k - 1], taken));
            }
        }
        assert forall|x: int, i: int, y: int, j: int|
            0 <= x < y < out.len() && 0 <= i < out[x].len() && 0 <= j < out[y].len() implies (
        #[trigger] out[x][i]) != (#[trigger] out[y][j]) by {
            if y < a.len() {
                assert(out[x] == a[x] && out[y] == a[y]);
                assert(a[x][i] != a[y][j]);
            } else if x >= a.len() {
                assert(out[x] == b[x - a.len()] && out[y] == b[y - a.len()]);
                assert(b[x - a.len()][i] != b[y - a.len()][j]);
            } else {
                let f = files[out[x][i] as int];
                assert(in_exts(f, taken, k - 1));
                let e = choose|e: int| 0 <= e < k - 1 && eligible(f, #[trigger] sim_exts()[e], taken);
                assert(eligible(files[out[y][j] as int], ext, taken));
                assert(sim_exts()[e] != sim_exts()[k - 1]);
            }
        }
    }
}

/// Whether a file may be compared under one of the first `k` extensions.
pub open spec fn in_exts(f: FileV, taken: Set<Seq<char>>, k: int) -> bool {
    exists|e: int| 0 <= e < k && eligible(f, #[trigger] sim_exts()[e], taken)
}

proof fn lemma_exts_differ()
    ensures
        forall|a: int, b: int|
            0 <= a < b < SIM_EXT_COUNT ==> (#[trigger] sim_exts()[a]) != (
            #[trigger] sim_exts()[b]),
{
    reveal_strlit("txt");
    reveal_strlit("md");
    reveal_strlit("log");
    reveal_strlit("csv");
    reveal_strlit("docx");
    assert("txt"@[0] == 't' && "md"@[0] == 'm' && "log"@[0] == 'l' && "csv"@[0] == 'c'
        && "docx"@[0] == 'd');
}

} // verus!
