//! Ordering by size, largest first; what is of equal size keeps its order.

use vstd::prelude::*;

verus! {

/// The first place at or after `i` whose key is smaller than `k`.
pub open spec fn slot(keys: Seq<u64>, r: Seq<usize>, k: u64, i: int) -> int
    decreases r.len() - i,
{
    if i < 0 || i >= r.len() || keys[r[i] as int] < k {
        i
    } else {
        slot(keys, r, k, i + 1)
    }
}

/// The first `n` indices, largest key first.
pub open spec fn ranked(keys: Seq<u64>, n: int) -> Seq<usize>
    decreases n,
{
    if n <= 0 {
        Seq::empty()
    } else {
        let r = ranked(keys, n - 1);
        r.insert(slot(keys, r, keys[n - 1], 0), (n - 1) as usize)
    }
}

/// Whether `r` holds each of the indices below `n` once, largest key first, and
/// equal keys in the order of their indices.
pub open spec fn is_ranking(keys: Seq<u64>, r: Seq<usize>, n: int) -> bool {
    &&& r.len() == n
    &&& forall|a: int| 0 <= a < n ==> (#[trigger] r[a]) < n
    &&& forall|a: int, b: int| 0 <= a < b < n ==> {
        &&& #[trigger] r[a] != #[trigger] r[b]
        &&& keys[r[a] as int] >= keys[r[b] as int]
        &&& keys[r[a] as int] == keys[r[b] as int] ==> r[a] < r[b]
    }
}

proof fn lemma_slot(keys: Seq<u64>, r: Seq<usize>, k: u64, i: int, n: int)
    requires
        is_ranking(keys, r, n),
        0 <= i <= r.len(),
        forall|a: int| 0 <= a < i ==> keys[(#[trigger] r[a]) as int] >= k,
    ensures
        i <= slot(keys, r, k, i) <= r.len(),
        forall|a: int| 0 <= a < slot(keys, r, k, i) ==> keys[(#[trigger] r[a]) as int] >= k,
        forall|a: int|
            slot(keys, r, k, i) <= a < r.len() ==> keys[(#[trigger] r[a]) as int] < k,
    decreases r.len() - i,
{
    if i < r.len() && keys[r[i] as int] >= k {
        lemma_slot(keys, r, k, i + 1, n);
    } else if i < r.len() {
        assert forall|a: int| i <= a < r.len() implies keys[(#[trigger] r[a]) as int] < k by {
            if a > i {
                assert(r[i] != r[a]);
                assert(keys[r[i] as int] >= keys[r[a] as int]);
            }
        }
    }
}

/// The order is one: every index once, largest first, ties as they came.
pub proof fn law_ranked(keys: Seq<u64>, n: int)
    requires
        0 <= n <= keys.len() <= usize::MAX,
    ensures
        is_ranking(keys, ranked(keys, n), n),
    decreases n,
{
    if n > 0 {
        law_ranked(keys, n - 1);
        let r = ranked(keys, n - 1);
        let k = keys[n - 1];
        lemma_slot(keys, r, k, 0, n - 1);
        let s = slot(keys, r, k, 0);
        let q = ranked(keys, n);
        assert(q == r.insert(s, (n - 1) as usize));
        assert forall|a: int| 0 <= a < n implies (#[trigger] q[a]) < n by {
            if a < s {
                assert(q[a] == r[a]);
            } else if a > s {
                assert(q[a] == r[a - 1]);
            }
        }
        assert forall|a: int, b: int| 0 <= a < b < n implies {
            &&& #[trigger] q[a] != #[trigger] q[b]
            &&& keys[q[a] as int] >= keys[q[b] as int]
            &&& keys[q[a] as int] == keys[q[b] as int] ==> q[a] < q[b]
        } by {
            let x = if a < s {
                a
            } else {
                a - 1
            };
            let y = if b < s {
                b
            } else {
                b - 1
            };
            if a != s {
                assert(q[a] == r[x]);
            }
            if b != s {
                assert(q[b] == r[y]);
            }
            if a != s && b != s {
                assert(r[x] != r[y]);
            }
        }
    }
}

/// Whether an index goes before another: its key is larger, or the keys are equal and
/// it is the smaller index.
pub open spec fn goes_before(keys: Seq<u64>, x: usize, y: usize) -> bool {
    keys[x as int] > keys[y as int] || (keys[x as int] == keys[y as int] && x < y)
}

/// Whether `r` holds the indices from `a` to `b` in order.
spec fn in_order(keys: Seq<u64>, r: Seq<usize>, a: int, b: int) -> bool {
    &&& r.len() == b - a
    &&& forall|i: int| 0 <= i < r.len() ==> a <= (#[trigger] r[i]) < b
    &&& forall|i: int, j: int|
        0 <= i < j < r.len() ==> goes_before(keys, #[trigger] r[i], #[trigger] r[j])
}

spec fn holds(r: Seq<usize>, x: int) -> bool {
    exists|i: int| 0 <= i < r.len() && #[trigger] r[i] == x
}

/// As many different numbers below `n` are `n` at most, and then all of them.
proof fn lemma_pigeons(r: Seq<usize>, n: int)
    requires
        0 <= n,
        forall|i: int| 0 <= i < r.len() ==> (#[trigger] r[i]) < n,
        forall|i: int, j: int| 0 <= i < j < r.len() ==> (#[trigger] r[i]) != (#[trigger] r[j]),
    ensures
        r.len() <= n,
        r.len() == n ==> forall|x: int| 0 <= x < n ==> #[trigger] holds(r, x),
    decreases n,
{
    if n == 0 {
        if r.len() > 0 {
            assert(r[0] < 0);
        }
    } else if exists|i: int| 0 <= i < r.len() && #[trigger] r[i] == n - 1 {
        let at = choose|i: int| 0 <= i < r.len() && #[trigger] r[i] == n - 1;
        let q = r.remove(at);
        assert forall|i: int| 0 <= i < q.len() implies (#[trigger] q[i]) < n - 1 by {
            if i < at {
                assert(q[i] == r[i]);
                assert(r[i] != r[at]);
            } else {
                assert(q[i] == r[i + 1]);
                assert(r[at] != r[i + 1]);
            }
        }
        assert forall|i: int, j: int| 0 <= i < j < q.len() implies (#[trigger] q[i]) != (
        #[trigger] q[j]) by {
            let x = if i < at {
                i
            } else {
                i + 1
            };
            let y = if j < at {
                j
            } else {
                j + 1
            };
            assert(r[x] != r[y]);
        }
        lemma_pigeons(q, n - 1);
        if r.len() == n {
            assert forall|x: int| 0 <= x < n implies #[trigger] holds(r, x) by {
                if x == n - 1 {
                    assert(r[at] == x);
                } else {
                    assert(holds(q, x));
                    let i = choose|i: int| 0 <= i < q.len() && #[trigger] q[i] == x;
                    if i < at {
                        assert(r[i] == x);
                    } else {
                        assert(r[i + 1] == x);
                    }
                }
            }
        }
    } else {
        assert forall|i: int| 0 <= i < r.len() implies (#[trigger] r[i]) < n - 1 by {
            assert(r[i] != n - 1);
        }
        lemma_pigeons(r, n - 1);
    }
}

proof fn lemma_same_until(keys: Seq<u64>, r: Seq<usize>, q: Seq<usize>, n: int, k: int)
    requires
        is_ranking(keys, r, n),
        is_ranking(keys, q, n),
        0 <= k <= n,
    ensures
        forall|i: int| 0 <= i < k ==> (#[trigger] r[i]) == q[i],
    decreases k,
{
    if k > 0 {
        lemma_same_until(keys, r, q, n, k - 1);
        let i = k - 1;
        lemma_pigeons(r, n);
        lemma_pigeons(q, n);
        let x = r[i];
        let y = q[i];
        if x != y {
            assert(holds(q, x as int));
            assert(holds(r, y as int));
            let a = choose|j: int| 0 <= j < q.len() && #[trigger] q[j] == x as int;
            let b = choose|j: int| 0 <= j < r.len() && #[trigger] r[j] == y as int;
            if a < i {
                assert(r[a] == q[a]);
                assert(r[a] != r[i]);
            }
            if b < i {
                assert(r[b] == q[b]);
                assert(q[b] != q[i]);
            }
            assert(q[i] != q[a]);
            assert(r[i] != r[b]);
        }
    }
}

/// There is one ranking.
proof fn lemma_one_ranking(keys: Seq<u64>, r: Seq<usize>, q: Seq<usize>, n: int)
    requires
        is_ranking(keys, r, n),
        is_ranking(keys, q, n),
    ensures
        r == q,
{
    lemma_same_until(keys, r, q, n, n);
    assert(r =~= q);
}

/// Puts two runs together, all indices of the first being smaller.
fn merge_runs(keys: &Vec<u64>, left: &Vec<usize>, right: &Vec<usize>, a: usize, m: usize, b: usize) -> (out:
    Vec<usize>)
    requires
        a <= m <= b <= keys@.len(),
        in_order(keys@, left@, a as int, m as int),
        in_order(keys@, right@, m as int, b as int),
    ensures
        in_order(keys@, out@, a as int, b as int),
{
    let mut out: Vec<usize> = Vec::new();
    let mut i: usize = 0;
    let mut j: usize = 0;
    while i < left.len() || j < right.len()
        invariant
            a <= m <= b <= keys@.len(),
            in_order(keys@, left@, a as int, m as int),
            in_order(keys@, right@, m as int, b as int),
            i <= left@.len(),
            j <= right@.len(),
            out@.len() == i + j,
            forall|x: int| 0 <= x < out@.len() ==> a <= (#[trigger] out@[x]) < b,
            forall|x: int, y: int|
                0 <= x < y < out@.len() ==> goes_before(
                    keys@,
                    #[trigger] out@[x],
                    #[trigger] out@[y],
                ),
            forall|x: int, y: int|
                0 <= x < out@.len() && i <= y < left@.len() ==> goes_before(
                    keys@,
                    #[trigger] out@[x],
                    #[trigger] left@[y],
                ),
            forall|x: int, y: int|
                0 <= x < out@.len() && j <= y < right@.len() ==> goes_before(
                    keys@,
                    #[trigger] out@[x],
                    #[trigger] right@[y],
                ),
        decreases left@.len() - i + right@.len() - j,
    {
        let take_left: bool = if i == left.len() {
            false
        } else if j == right.len() {
            true
        } else {
            keys[left[i]] >= keys[right[j]]
        };
        let ghost before = out@;
        if take_left {
            let x: usize = left[i];
            proof {
                assert forall|y: int| j <= y < right@.len() implies goes_before(
                    keys@,
                    x,
                    #[trigger] right@[y],
                ) by {
                    if y > j {
                        assert(goes_before(keys@, right@[j as int], right@[y]));
                    }
                    assert(x < m <= right@[y]);
                }
            }
            out.push(x);
            i += 1;
        } else {
            let x: usize = right[j];
            proof {
                assert forall|y: int| i <= y < left@.len() implies goes_before(
                    keys@,
                    x,
                    #[trigger] left@[y],
                ) by {
                    if y > i {
                        assert(goes_before(keys@, left@[i as int], left@[y]));
                    }
                }
            }
            out.push(x);
            j += 1;
        }
    }
    out
}

fn sort_range(keys: &Vec<u64>, a: usize, b: usize) -> (out: Vec<usize>)
    requires
        a <= b <= keys@.len(),
    ensures
        in_order(keys@, out@, a as int, b as int),
    decreases b - a,
{
    let mut out: Vec<usize> = Vec::new();
    if b - a == 0 {
        return out;
    }
    if b - a == 1 {
        out.push(a);
        return out;
    }
    let m: usize = a + (b - a) / 2;
    let left: Vec<usize> = sort_range(keys, a, m);
    let right: Vec<usize> = sort_range(keys, m, b);
    merge_runs(keys, &left, &right, a, m, b)
}

/// The indices of the keys, largest key first; equal keys keep their order.
pub fn order_desc(keys: &Vec<u64>) -> (out: Vec<usize>)
    ensures
        out@ == ranked(keys@, keys@.len() as int),
        is_ranking(keys@, out@, keys@.len() as int),
{
    let n: usize = keys.len();
    let out: Vec<usize> = sort_range(keys, 0, n);
    proof {
        law_ranked(keys@, n as int);
        assert forall|x: int, y: int| 0 <= x < y < n implies {
            &&& #[trigger] out@[x] != #[trigger] out@[y]
            &&& keys@[out@[x] as int] >= keys@[out@[y] as int]
            &&& keys@[out@[x] as int] == keys@[out@[y] as int] ==> out@[x] < out@[y]
        } by {
            assert(goes_before(keys@, out@[x], out@[y]));
        }
        assert(is_ranking(keys@, out@, n as int));
        lemma_one_ranking(keys@, out@, ranked(keys@, n as int), n as int);
    }
    out
}

// ------------------------------------------------------------ the largest so far

/// The first place at or after `i` whose size is smaller than `size`.
pub open spec fn place(s: Seq<(Seq<char>, u64)>, size: u64, i: int) -> int
    decreases s.len() - i,
{
    if i < 0 || i >= s.len() || s[i].1 < size {
        i
    } else {
        place(s, size, i + 1)
    }
}

/// The `cap` largest of a list of rows with a further row put among them.
pub open spec fn with_top(s: Seq<(Seq<char>, u64)>, x: (Seq<char>, u64), cap: nat) -> Seq<
    (Seq<char>, u64),
> {
    let t = s.insert(place(s, x.1, 0), x);
    if t.len() > cap {
        t.take(cap as int)
    } else {
        t
    }
}

/// The `cap` largest of the first `n` rows, largest first; of rows of the same
/// size the earlier ones.
pub open spec fn top(list: Seq<(Seq<char>, u64)>, n: int, cap: nat) -> Seq<(Seq<char>, u64)>
    decreases n,
{
    if n <= 0 {
        Seq::empty()
    } else {
        with_top(top(list, n - 1, cap), list[n - 1], cap)
    }
}

/// Whether the rows are ordered, largest first.
pub open spec fn descending(s: Seq<(Seq<char>, u64)>) -> bool {
    forall|a: int, b: int| 0 <= a < b < s.len() ==> (#[trigger] s[a]).1 >= (#[trigger] s[b]).1
}

proof fn lemma_place(s: Seq<(Seq<char>, u64)>, size: u64, i: int)
    requires
        descending(s),
        0 <= i <= s.len(),
        forall|a: int| 0 <= a < i ==> (#[trigger] s[a]).1 >= size,
    ensures
        i <= place(s, size, i) <= s.len(),
        forall|a: int| 0 <= a < place(s, size, i) ==> (#[trigger] s[a]).1 >= size,
        forall|a: int| place(s, size, i) <= a < s.len() ==> (#[trigger] s[a]).1 < size,
    decreases s.len() - i,
{
    if i < s.len() && s[i].1 >= size {
        lemma_place(s, size, i + 1);
    } else if i < s.len() {
        assert forall|a: int| i <= a < s.len() implies (#[trigger] s[a]).1 < size by {
            if a > i {
                assert(s[i].1 >= s[a].1);
            }
        }
    }
}

proof fn lemma_with_top(s: Seq<(Seq<char>, u64)>, x: (Seq<char>, u64), cap: nat)
    requires
        descending(s),
        s.len() <= cap,
    ensures
        descending(with_top(s, x, cap)),
        with_top(s, x, cap).len() == if s.len() + 1 <= cap {
            s.len() + 1
        } else {
            cap
        },
        forall|a: int|
            0 <= a < with_top(s, x, cap).len() ==> #[trigger] with_top(s, x, cap)[a] == x
                || s.contains(with_top(s, x, cap)[a]),
        with_top(s, x, cap).contains(x) || (with_top(s, x, cap).len() == cap && forall|a: int|
            0 <= a < cap ==> (#[trigger] with_top(s, x, cap)[a]).1 >= x.1),
        forall|b: int|
            0 <= b < s.len() ==> with_top(s, x, cap).contains(#[trigger] s[b]) || (with_top(
                s,
                x,
                cap,
            ).len() == cap && forall|a: int|
                0 <= a < cap ==> (#[trigger] with_top(s, x, cap)[a]).1 >= s[b].1),
{
    lemma_place(s, x.1, 0);
    let p = place(s, x.1, 0);
    let t = s.insert(p, x);
    let w = with_top(s, x, cap);
    assert(forall|a: int| 0 <= a < p ==> t[a] == s[a]);
    assert(t[p] == x);
    assert(forall|a: int| p < a < t.len() ==> t[a] == s[a - 1]);
    assert(descending(t)) by {
        assert forall|a: int, b: int| 0 <= a < b < t.len() implies (#[trigger] t[a]).1 >= (
        #[trigger] t[b]).1 by {
            let x1 = if a < p {
                a
            } else {
                a - 1
            };
            let y1 = if b < p {
                b
            } else {
                b - 1
            };
            if a != p && b != p {
                assert(t[a] == s[x1] && t[b] == s[y1]);
            } else if a == p {
                assert(t[b] == s[y1]);
            } else {
                assert(t[a] == s[x1]);
            }
        }
    }
    assert(forall|a: int| 0 <= a < w.len() ==> w[a] == t[a]);
    assert forall|a: int| 0 <= a < w.len() implies #[trigger] w[a] == x || s.contains(w[a]) by {
        if a < p {
            assert(s[a] == w[a]);
        } else if a > p {
            assert(s[a - 1] == w[a]);
        }
    }
    if p < w.len() {
        assert(w[p] == x);
    }
    assert forall|b: int| 0 <= b < s.len() implies w.contains(#[trigger] s[b]) || (w.len() == cap
        && forall|a: int| 0 <= a < cap ==> (#[trigger] w[a]).1 >= s[b].1) by {
        let q = if b < p {
            b
        } else {
            b + 1
        };
        assert(t[q] == s[b]);
        if q < w.len() {
            assert(w[q] == s[b]);
        } else {
            assert forall|a: int| 0 <= a < cap implies (#[trigger] w[a]).1 >= s[b].1 by {
                assert(t[a].1 >= t[q].1);
            }
        }
    }
}

/// The kept rows are the largest: they are ordered, they are rows of the list,
/// there are as many as allowed or all of them, and no row that was not kept is
/// larger than one that was.
pub proof fn law_top_is_largest(list: Seq<(Seq<char>, u64)>, n: int, cap: nat)
    requires
        0 <= n <= list.len(),
    ensures
        descending(top(list, n, cap)),
        top(list, n, cap).len() == if n <= cap {
            n as nat
        } else {
            cap
        },
        forall|a: int| 0 <= a < top(list, n, cap).len() ==> list.contains(
            #[trigger] top(list, n, cap)[a],
        ),
        forall|i: int|
            0 <= i < n ==> top(list, n, cap).contains(#[trigger] list[i]) || (top(
                list,
                n,
                cap,
            ).len() == cap && forall|a: int|
                0 <= a < cap ==> (#[trigger] top(list, n, cap)[a]).1 >= list[i].1),
    decreases n,
{
    if n > 0 {
        law_top_is_largest(list, n - 1, cap);
        let s = top(list, n - 1, cap);
        let x = list[n - 1];
        lemma_with_top(s, x, cap);
        let w = top(list, n, cap);
        assert forall|a: int| 0 <= a < w.len() implies list.contains(#[trigger] w[a]) by {
            if w[a] == x {
                assert(list[n - 1] == w[a]);
            } else {
                assert(s.contains(w[a]));
                let b = choose|b: int| 0 <= b < s.len() && s[b] == w[a];
                assert(list.contains(s[b]));
            }
        }
        assert forall|i: int| 0 <= i < n implies w.contains(#[trigger] list[i]) || (w.len() == cap
            && forall|a: int| 0 <= a < cap ==> (#[trigger] w[a]).1 >= list[i].1) by {
            if i < n - 1 {
                if s.contains(list[i]) {
                    let b = choose|b: int| 0 <= b < s.len() && s[b] == list[i];
                    assert(w.contains(s[b]) || (w.len() == cap && forall|a: int|
                        0 <= a < cap ==> (#[trigger] w[a]).1 >= s[b].1));
                } else {
                    assert forall|a: int| 0 <= a < cap implies (#[trigger] w[a]).1
                        >= list[i].1 by {
                        if w[a] == x {
                            lemma_kept_beats(s, x, cap, a, list[i].1);
                        } else {
                            assert(s.contains(w[a]));
                            let b = choose|b: int| 0 <= b < s.len() && s[b] == w[a];
                            assert(s[b].1 >= list[i].1);
                        }
                    }
                }
            }
        }
    }
}

/// A row that enters a full list is larger than the smallest of it.
proof fn lemma_kept_beats(
    s: Seq<(Seq<char>, u64)>,
    x: (Seq<char>, u64),
    cap: nat,
    a: int,
    bound: u64,
)
    requires
        descending(s),
        s.len() == cap,
        0 <= a < cap,
        with_top(s, x, cap)[a] == x,
        forall|b: int| 0 <= b < cap ==> (#[trigger] s[b]).1 >= bound,
    ensures
        x.1 >= bound,
{
    lemma_place(s, x.1, 0);
    let p = place(s, x.1, 0);
    if p < cap {
        assert(s[p].1 < x.1);
        assert(s[p].1 >= bound);
    } else {
        assert(with_top(s, x, cap)[a] == s[a]);
        assert(s[a].1 >= bound);
    }
}

/// Puts a row among the `cap` largest.
pub fn push_topk(heap: &mut Vec<(String, u64)>, size: u64, path: String, cap: usize)
    requires
        old(heap)@.len() <= cap,
    ensures
        crate::text::rows(final(heap)@) == with_top(
            crate::text::rows(old(heap)@),
            (path@, size),
            cap as nat,
        ),
        final(heap)@.len() <= cap,
{
    let ghost s = crate::text::rows(heap@);
    let ghost x = (path@, size);
    let mut p: usize = 0;
    while p < heap.len() && heap[p].1 >= size
        invariant
            p <= heap@.len(),
            s == crate::text::rows(heap@),
            place(s, size, 0) == place(s, size, p as int),
        decreases heap@.len() - p,
    {
        p += 1;
    }
    if p < cap {
        if heap.len() == cap {
            let ghost before = heap@;
            let _ = heap.pop();
            assert(crate::text::rows(heap@) =~= s.drop_last());
            heap.insert(p, (path, size));
            assert(crate::text::rows(heap@) =~= with_top(s, x, cap as nat));
        } else {
            heap.insert(p, (path, size));
            assert(crate::text::rows(heap@) =~= with_top(s, x, cap as nat));
        }
    } else {
        assert(s =~= with_top(s, x, cap as nat));
    }
}

} // verus!
