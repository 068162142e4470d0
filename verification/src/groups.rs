//! Grouping by label: what carries the same label belongs together.

use vstd::hash_map::StringHashMap;
use vstd::prelude::*;

verus! {

/// Those of the first `n` positions that carry the label `h`, in order.
pub open spec fn carriers(labels: Seq<Option<usize>>, h: int, n: int) -> Seq<usize>
    decreases n,
{
    if n <= 0 {
        Seq::empty()
    } else if labels[n - 1] matches Some(l) && l == h {
        carriers(labels, h, n - 1).push((n - 1) as usize)
    } else {
        carriers(labels, h, n - 1)
    }
}

/// The groups of at least two positions whose labels are below `k`, by label.
pub open spec fn groups_below(labels: Seq<Option<usize>>, k: int) -> Seq<Seq<usize>>
    decreases k,
{
    if k <= 0 {
        Seq::empty()
    } else {
        let before = groups_below(labels, k - 1);
        let g = carriers(labels, k - 1, labels.len() as int);
        if g.len() >= 2 {
            before.push(g)
        } else {
            before
        }
    }
}

/// The groups of at least two positions that carry the same label.
pub open spec fn groups_of(labels: Seq<Option<usize>>) -> Seq<Seq<usize>> {
    groups_below(labels, labels.len() as int)
}

/// The values of a list of groups.
pub open spec fn group_views(v: Seq<Vec<usize>>) -> Seq<Seq<usize>> {
    Seq::new(v.len(), |i: int| v[i]@)
}

/// The groups of at least two positions that carry the same label. A label is a
/// position itself.
pub fn group_labels(labels: &Vec<Option<usize>>) -> (out: Vec<Vec<usize>>)
    requires
        forall|i: int|
            0 <= i < labels@.len() ==> ((#[trigger] labels@[i]) matches Some(l) ==> l
                < labels@.len()),
    ensures
        group_views(out@) == groups_of(labels@),
{
    let n: usize = labels.len();
    let mut slots: Vec<Vec<usize>> = Vec::new();
    let mut k: usize = 0;
    while k < n
        invariant
            k <= n,
            slots@.len() == k,
            forall|h: int| 0 <= h < k ==> (#[trigger] slots@[h])@ == Seq::<usize>::empty(),
        decreases n - k,
    {
        slots.push(Vec::new());
        k += 1;
    }
    let mut i: usize = 0;
    while i < n
        invariant
            i <= n,
            n == labels@.len(),
            slots@.len() == n,
            forall|j: int|
                0 <= j < labels@.len() ==> ((#[trigger] labels@[j]) matches Some(l) ==> l
                    < labels@.len()),
            forall|h: int| 0 <= h < n ==> (#[trigger] slots@[h])@ == carriers(labels@, h, i as int),
        decreases n - i,
    {
        match labels[i] {
            Some(l) => {
                let ghost before = slots@;
                slots[l].push(i);
                assert forall|h: int| 0 <= h < n implies (#[trigger] slots@[h])@ == carriers(
                    labels@,
                    h,
                    i + 1,
                ) by {
                    assert(before[h]@ == carriers(labels@, h, i as int));
                }
            },
            None => {
                assert forall|h: int| 0 <= h < n implies (#[trigger] slots@[h])@ == carriers(
                    labels@,
                    h,
                    i + 1,
                ) by {}
            },
        }
        i += 1;
    }
    let mut out: Vec<Vec<usize>> = Vec::new();
    let mut h: usize = 0;
    assert(group_views(out@) =~= Seq::empty());
    while h < n
        invariant
            h <= n,
            n == labels@.len(),
            slots@.len() == n,
            forall|x: int| 0 <= x < n ==> (#[trigger] slots@[x])@ == carriers(labels@, x, n as int),
            group_views(out@) == groups_below(labels@, h as int),
        decreases n - h,
    {
        if slots[h].len() >= 2 {
            let ghost before = group_views(out@);
            let g: Vec<usize> = copy_group(&slots[h]);
            out.push(g);
            assert(group_views(out@) =~= before.push(g@));
        }
        h += 1;
    }
    out
}

/// A copy of a group.
pub fn copy_group(g: &Vec<usize>) -> (out: Vec<usize>)
    ensures
        out@ == g@,
{
    let mut out: Vec<usize> = Vec::new();
    let mut i: usize = 0;
    while i < g.len()
        invariant
            i <= g@.len(),
            out@ == g@.take(i as int),
        decreases g@.len() - i,
    {
        out.push(g[i]);
        i += 1;
        assert(g@.take(i as int) =~= g@.take(i - 1).push(g@[i - 1]));
    }
    assert(g@.take(g@.len() as int) =~= g@);
    out
}

// ------------------------------------------------------------------- labels from keys

/// The first position, from `i` on, with the given key.
pub open spec fn first_with(keys: Seq<Option<Seq<char>>>, k: Seq<char>, i: int) -> int
    decreases keys.len() - i,
{
    if i < 0 || i >= keys.len() || keys[i] == Some(k) {
        i
    } else {
        first_with(keys, k, i + 1)
    }
}

/// The label of each position: the first position with the same key, none where
/// there is no key.
pub open spec fn key_labels(keys: Seq<Option<Seq<char>>>) -> Seq<Option<usize>> {
    Seq::new(
        keys.len(),
        |i: int|
            match keys[i] {
                Some(k) => Some(first_with(keys, k, 0) as usize),
                None => None,
            },
    )
}

/// The keys of a list of optional strings.
pub open spec fn key_views(v: Seq<Option<String>>) -> Seq<Option<Seq<char>>> {
    Seq::new(
        v.len(),
        |i: int|
            match v[i] {
                Some(s) => Some(s@),
                None => None,
            },
    )
}

proof fn lemma_first_with(keys: Seq<Option<Seq<char>>>, k: Seq<char>, i: int, at: int)
    requires
        0 <= i <= at < keys.len(),
        keys[at] == Some(k),
        forall|j: int| i <= j < at ==> keys[j] != Some(k),
    ensures
        first_with(keys, k, i) == at,
    decreases at - i,
{
    if i < at {
        assert(keys[i] != Some(k));
        lemma_first_with(keys, k, i + 1, at);
    }
}

/// The label of each position: the first position with the same key.
pub fn label_keys(keys: &Vec<Option<String>>) -> (out: Vec<Option<usize>>)
    ensures
        out@ == key_labels(key_views(keys@)),
        forall|i: int|
            0 <= i < out@.len() ==> ((#[trigger] out@[i]) matches Some(l) ==> l < out@.len()),
{
    let ghost ks = key_views(keys@);
    let mut out: Vec<Option<usize>> = Vec::new();
    let mut firsts: StringHashMap<usize> = StringHashMap::new();
    let mut i: usize = 0;
    while i < keys.len()
        invariant
            i <= keys.len(),
            ks == key_views(keys@),
            out@ == key_labels(ks).take(i as int),
            forall|j: int| 0 <= j < i ==> ((#[trigger] out@[j]) matches Some(l) ==> l < i),
            forall|k: Seq<char>| #[trigger]
                firsts@.contains_key(k) ==> firsts@[k] < i && ks[firsts@[k] as int] == Some(k)
                    && forall|j: int| 0 <= j < firsts@[k] ==> (#[trigger] ks[j]) != Some(k),
            forall|j: int|
                0 <= j < i && (#[trigger] ks[j]) is Some ==> firsts@.contains_key(ks[j]->0),
        decreases keys@.len() - i,
    {
        let ghost before = firsts@;
        let label: Option<usize> = match &keys[i] {
            None => None,
            Some(k) => {
                assert(ks[i as int] == Some(k@));
                match firsts.get(k.as_str()) {
                    Some(f) => {
                        proof {
                            lemma_first_with(ks, k@, 0, *f as int);
                        }
                        Some(*f)
                    },
                    None => {
                        proof {
                            assert forall|j: int| 0 <= j < i implies ks[j] != Some(k@) by {
                                if ks[j] == Some(k@) {
                                    assert(before.contains_key(ks[j]->0));
                                }
                            }
                            lemma_first_with(ks, k@, 0, i as int);
                        }
                        firsts.insert(k.clone(), i);
                        Some(i)
                    },
                }
            },
        };
        assert(label == key_labels(ks)[i as int]);
        out.push(label);
        i += 1;
        assert(key_labels(ks).take(i as int) =~= key_labels(ks).take(i - 1).push(
            key_labels(ks)[i - 1],
        ));
        assert forall|j: int| 0 <= j < i && (#[trigger] ks[j]) is Some implies firsts@.contains_key(
            ks[j]->0,
        ) by {
            if j < i - 1 {
                assert(before.contains_key(ks[j]->0));
            }
        }
    }
    assert(key_labels(ks).take(keys@.len() as int) =~= key_labels(ks));
    out
}

// --------------------------------------------------------------------------------- laws

/// Two positions are put together only where they carry the same label.
pub proof fn law_carriers(labels: Seq<Option<usize>>, h: int, n: int)
    requires
        0 <= n <= labels.len() <= usize::MAX,
    ensures
        forall|k: int|
            0 <= k < carriers(labels, h, n).len() ==> (#[trigger] carriers(labels, h, n)[k]) < n && (
            labels[carriers(labels, h, n)[k] as int] matches Some(l) && l == h),
        forall|i: int|
            0 <= i < n && (labels[i] matches Some(l) && l == h) ==> #[trigger] carriers(
                labels,
                h,
                n,
            ).contains(i as usize),
    decreases n,
{
    if n > 0 {
        law_carriers(labels, h, n - 1);
        let before = carriers(labels, h, n - 1);
        let now = carriers(labels, h, n);
        assert forall|i: int| 0 <= i < n && (labels[i] matches Some(l) && l == h) implies
            #[trigger] now.contains(i as usize) by {
            if i < n - 1 {
                assert(before.contains(i as usize));
                let k = choose|k: int| 0 <= k < before.len() && before[k] == i as usize;
                assert(now[k] == i as usize);
            } else {
                assert(now.last() == i as usize);
                assert(now[now.len() - 1] == i as usize);
            }
        }
    }
}

/// Every group has at least two members, and each member is one of the labelled
/// positions.
pub proof fn law_groups(labels: Seq<Option<usize>>)
    requires
        labels.len() <= usize::MAX,
    ensures
        forall|x: int|
            0 <= x < groups_of(labels).len() ==> (#[trigger] groups_of(labels)[x]).len() >= 2,
        forall|x: int, k: int|
            0 <= x < groups_of(labels).len() && 0 <= k < groups_of(labels)[x].len() ==> (
            #[trigger] groups_of(labels)[x][k]) < labels.len(),
{
    lemma_groups_below(labels, labels.len() as int);
}

/// There are no more groups than labels.
pub proof fn lemma_group_number(labels: Seq<Option<usize>>, n: int)
    requires
        0 <= n,
    ensures
        groups_below(labels, n).len() <= n,
    decreases n,
{
    if n > 0 {
        lemma_group_number(labels, n - 1);
    }
}

proof fn lemma_groups_below(labels: Seq<Option<usize>>, n: int)
    requires
        labels.len() <= usize::MAX,
        n <= labels.len(),
    ensures
        forall|x: int|
            0 <= x < groups_below(labels, n).len() ==> (#[trigger] groups_below(
                labels,
                n,
            )[x]).len() >= 2,
        forall|x: int, k: int|
            0 <= x < groups_below(labels, n).len() && 0 <= k < groups_below(labels, n)[x].len()
                ==> (#[trigger] groups_below(labels, n)[x][k]) < labels.len(),
    decreases n,
{
    if n > 0 {
        lemma_groups_below(labels, n - 1);
        law_carriers(labels, n - 1, labels.len() as int);
        let before = groups_below(labels, n - 1);
        let now = groups_below(labels, n);
        assert forall|x: int, k: int|
            0 <= x < now.len() && 0 <= k < now[x].len() implies (#[trigger] now[x][k])
            < labels.len() by {
            if x < before.len() {
                assert(now[x] == before[x]);
                assert(before[x][k] < labels.len());
            }
        }
        assert forall|x: int| 0 <= x < now.len() implies (#[trigger] now[x]).len() >= 2 by {
            if x < before.len() {
                assert(now[x] == before[x]);
            }
        }
    }
}

/// Whether no position is in two groups.
pub open spec fn separate(gs: Seq<Seq<usize>>) -> bool {
    forall|x: int, i: int, y: int, j: int|
        0 <= x < y < gs.len() && 0 <= i < gs[x].len() && 0 <= j < gs[y].len() ==> (
        #[trigger] gs[x][i]) != (#[trigger] gs[y][j])
}

proof fn lemma_separate_below(labels: Seq<Option<usize>>, n: int)
    requires
        0 <= n <= labels.len() <= usize::MAX,
    ensures
        separate(groups_below(labels, n)),
        forall|x: int, i: int|
            0 <= x < groups_below(labels, n).len() && 0 <= i < groups_below(labels, n)[x].len() ==> (
            labels[(#[trigger] groups_below(labels, n)[x][i]) as int] matches Some(l) && l < n),
    decreases n,
{
    if n > 0 {
        lemma_separate_below(labels, n - 1);
        law_carriers(labels, n - 1, labels.len() as int);
        let before = groups_below(labels, n - 1);
        let g = carriers(labels, n - 1, labels.len() as int);
        let now = groups_below(labels, n);
        assert forall|x: int, i: int| 0 <= x < now.len() && 0 <= i < now[x].len() implies (
        labels[(#[trigger] now[x][i]) as int] matches Some(l) && l < n && (x < before.len() ==> l
            < n - 1) && (x >= before.len() ==> l == n - 1)) by {
            if x < before.len() {
                assert(now[x] == before[x]);
                assert(labels[before[x][i] as int] matches Some(l) && l < n - 1);
            } else {
                assert(now[x] == g);
                assert(g[i] < labels.len());
            }
        }
        assert forall|x: int, i: int, y: int, j: int|
            0 <= x < y < now.len() && 0 <= i < now[x].len() && 0 <= j < now[y].len() implies (
        #[trigger] now[x][i]) != (#[trigger] now[y][j]) by {
            if y < before.len() {
                assert(now[x] == before[x]);
                assert(now[y] == before[y]);
                assert(before[x][i] != before[y][j]);
            }
        }
    }
}

/// No position is in two groups, and what is in a group carries a label.
pub proof fn law_separate(labels: Seq<Option<usize>>)
    requires
        labels.len() <= usize::MAX,
    ensures
        separate(groups_of(labels)),
        forall|x: int, i: int|
            0 <= x < groups_of(labels).len() && 0 <= i < groups_of(labels)[x].len() ==> labels[(
            #[trigger] groups_of(labels)[x][i]) as int] is Some,
{
    lemma_separate_below(labels, labels.len() as int);
}

} // verus!
