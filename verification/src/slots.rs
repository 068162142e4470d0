//! What is kept for each window by itself.

use crate::text::same;
use vstd::prelude::*;

verus! {

/// The values of the first `n` slots, by their labels; of two with one label the later.
pub open spec fn as_map<V>(v: Seq<(Seq<char>, V)>, n: int) -> Map<Seq<char>, V>
    decreases n,
{
    if n <= 0 {
        Map::empty()
    } else {
        as_map(v, n - 1).insert(v[n - 1].0, v[n - 1].1)
    }
}

/// Whether no label is there twice.
pub open spec fn apart<V>(v: Seq<(Seq<char>, V)>) -> bool {
    forall|i: int, j: int| 0 <= i < j < v.len() ==> (#[trigger] v[i]).0 != (#[trigger] v[j]).0
}

pub proof fn lemma_as_map<V>(v: Seq<(Seq<char>, V)>, n: int)
    requires
        0 <= n <= v.len(),
        apart(v),
    ensures
        forall|i: int|
            0 <= i < n ==> as_map(v, n).contains_key((#[trigger] v[i]).0) && as_map(v, n)[v[i].0]
                == v[i].1,
        forall|k: Seq<char>|
            (forall|i: int| 0 <= i < n ==> (#[trigger] v[i]).0 != k) ==> !(
            #[trigger] as_map(v, n).contains_key(k)),
    decreases n,
{
    if n > 0 {
        lemma_as_map(v, n - 1);
        assert forall|i: int| 0 <= i < n implies as_map(v, n).contains_key((#[trigger] v[i]).0)
            && as_map(v, n)[v[i].0] == v[i].1 by {
            if i < n - 1 {
                assert(v[i].0 != v[n - 1].0);
            }
        }
        assert forall|k: Seq<char>|
            (forall|i: int| 0 <= i < n ==> (#[trigger] v[i]).0 != k) implies !(
        #[trigger] as_map(v, n).contains_key(k)) by {
            assert(v[n - 1].0 != k);
            assert(!as_map(v, n - 1).contains_key(k));
        }
    }
}

pub proof fn lemma_as_map_update<V>(
    v: Seq<(Seq<char>, V)>,
    w: Seq<(Seq<char>, V)>,
    at: int,
    n: int,
)
    requires
        0 <= at < v.len(),
        0 <= n <= v.len(),
        apart(v),
        w.len() == v.len(),
        w[at].0 == v[at].0,
        forall|i: int| 0 <= i < v.len() && i != at ==> (#[trigger] w[i]) == v[i],
    ensures
        as_map(w, n) == (if at < n {
            as_map(v, n).insert(v[at].0, w[at].1)
        } else {
            as_map(v, n)
        }),
    decreases n,
{
    if n > 0 {
        lemma_as_map_update(v, w, at, n - 1);
        if n - 1 == at {
            assert(as_map(w, n) =~= as_map(v, n).insert(v[at].0, w[at].1));
        } else {
            assert(w[n - 1] == v[n - 1]);
            if at < n - 1 {
                assert(v[at].0 != v[n - 1].0);
                assert(as_map(w, n) =~= as_map(v, n).insert(v[at].0, w[at].1));
            }
        }
    }
}

pub proof fn lemma_as_map_prefix<V>(v: Seq<(Seq<char>, V)>, w: Seq<(Seq<char>, V)>, n: int)
    requires
        0 <= n <= v.len(),
        n <= w.len(),
        forall|i: int| 0 <= i < n ==> (#[trigger] w[i]) == v[i],
    ensures
        as_map(w, n) == as_map(v, n),
    decreases n,
{
    if n > 0 {
        lemma_as_map_prefix(v, w, n - 1);
    }
}

proof fn lemma_as_map_remove<V>(v: Seq<(Seq<char>, V)>, at: int)
    requires
        0 <= at < v.len(),
        apart(v),
    ensures
        apart(v.remove(at)),
        as_map(v.remove(at), v.len() - 1) == as_map(v, v.len() as int).remove(v[at].0),
{
    let w = v.remove(at);
    let n = v.len() as int;
    assert forall|i: int, j: int| 0 <= i < j < w.len() implies (#[trigger] w[i]).0 != (
    #[trigger] w[j]).0 by {
        let a = if i < at {
            i
        } else {
            i + 1
        };
        let b = if j < at {
            j
        } else {
            j + 1
        };
        assert(v[a].0 != v[b].0);
    }
    lemma_as_map(v, n);
    lemma_as_map(w, n - 1);
    let x = as_map(w, n - 1);
    let y = as_map(v, n).remove(v[at].0);
    assert forall|k: Seq<char>| x.contains_key(k) == #[trigger] y.contains_key(k) && (
    y.contains_key(k) ==> x[k] == y[k]) by {
        if exists|i: int| 0 <= i < n && i != at && (#[trigger] v[i]).0 == k {
            let i = choose|i: int| 0 <= i < n && i != at && (#[trigger] v[i]).0 == k;
            let j = if i < at {
                i
            } else {
                i - 1
            };
            assert(w[j] == v[i]);
            assert(v[i].0 != v[at].0);
        } else {
            assert forall|j: int| 0 <= j < n - 1 implies (#[trigger] w[j]).0 != k by {
                let i = if j < at {
                    j
                } else {
                    j + 1
                };
                assert(v[i] == w[j]);
            }
            if k != v[at].0 {
                assert forall|i: int| 0 <= i < n implies (#[trigger] v[i]).0 != k by {}
            }
        }
    }
    assert(x =~= y);
}

/// What is kept for the windows, each under its label.
pub struct Slots<T> {
    entries: Vec<(String, T)>,
}

spec fn pairs<T>(v: Seq<(String, T)>) -> Seq<(Seq<char>, T)> {
    Seq::new(v.len(), |i: int| (v[i].0@, v[i].1))
}

impl<T> Slots<T> {
    /// What is kept, by the labels of the windows.
    pub closed spec fn view(self) -> Map<Seq<char>, T> {
        as_map(pairs(self.entries@), self.entries@.len() as int)
    }

    /// Whether every window has one slot.
    pub closed spec fn wf(self) -> bool {
        apart(pairs(self.entries@))
    }

    /// Nothing is kept.
    pub fn new() -> (out: Self)
        ensures
            out.wf(),
            out.view() == Map::<Seq<char>, T>::empty(),
    {
        Slots { entries: Vec::new() }
    }

    fn find(&self, label: &str) -> (out: Option<usize>)
        requires
            self.wf(),
        ensures
            match out {
                Some(i) => i < self.entries@.len() && self.entries@[i as int].0@ == label@
                    && self.view().contains_key(label@) && self.view()[label@]
                    == self.entries@[i as int].1,
                None => !self.view().contains_key(label@) && forall|j: int|
                    0 <= j < self.entries@.len() ==> (#[trigger] self.entries@[j]).0@ != label@,
            },
    {
        let ghost v = pairs(self.entries@);
        let mut i: usize = 0;
        proof {
            lemma_as_map(v, v.len() as int);
        }
        while i < self.entries.len()
            invariant
                i <= self.entries@.len(),
                v == pairs(self.entries@),
                self.view() == as_map(v, v.len() as int),
                forall|k: int|
                    0 <= k < v.len() ==> as_map(v, v.len() as int).contains_key((#[trigger] v[k]).0)
                        && as_map(v, v.len() as int)[v[k].0] == v[k].1,
                forall|k: int| 0 <= k < i ==> (#[trigger] self.entries@[k]).0@ != label@,
            decreases self.entries@.len() - i,
        {
            assert(v[i as int] == (self.entries@[i as int].0@, self.entries@[i as int].1));
            if same(self.entries[i].0.as_str(), label) {
                return Some(i);
            }
            i += 1;
        }
        proof {
            assert forall|k: int| 0 <= k < v.len() implies (#[trigger] v[k]).0 != label@ by {
                assert(self.entries@[k].0@ != label@);
            }
        }
        None
    }

    /// What is kept for a window.
    pub fn get(&self, label: &str) -> (out: Option<&T>)
        requires
            self.wf(),
        ensures
            match out {
                Some(x) => self.view().contains_key(label@) && self.view()[label@] == *x,
                None => !self.view().contains_key(label@),
            },
    {
        match self.find(label) {
            Some(i) => Some(&self.entries[i].1),
            None => None,
        }
    }

    /// Keeps something for a window, in place of what was kept for it before. What is kept
    /// for the others stays.
    pub fn set(&mut self, label: &str, x: T)
        requires
            old(self).wf(),
        ensures
            final(self).wf(),
            final(self).view() == old(self).view().insert(label@, x),
    {
        let key: String = label.to_owned();
        let ghost v = pairs(self.entries@);
        match self.find(label) {
            Some(i) => {
                self.entries.set(i, (key, x));
                proof {
                    let w = pairs(self.entries@);
                    assert(w =~= v.update(i as int, (label@, x)));
                    assert(v[i as int].0 == label@);
                    lemma_as_map_update(v, w, i as int, v.len() as int);
                    assert(apart(w));
                }
            },
            None => {
                proof {
                    assert forall|k: int| 0 <= k < v.len() implies (#[trigger] v[k]).0 != label@ by {
                        assert(self.entries@[k].0@ != label@);
                    }
                }
                self.entries.push((key, x));
                proof {
                    let w = pairs(self.entries@);
                    assert(w =~= v.push((label@, x)));
                    lemma_as_map_prefix(v, w, v.len() as int);
                }
            },
        }
    }

    /// Takes what is kept for a window, once. What is kept for the others stays.
    pub fn take(&mut self, label: &str) -> (out: Option<T>)
        requires
            old(self).wf(),
        ensures
            final(self).wf(),
            final(self).view() == old(self).view().remove(label@),
            out == (if old(self).view().contains_key(label@) {
                Some(old(self).view()[label@])
            } else {
                None
            }),
    {
        let ghost v = pairs(self.entries@);
        match self.find(label) {
            Some(i) => {
                let e: (String, T) = self.entries.remove(i);
                proof {
                    assert(pairs(self.entries@) =~= v.remove(i as int));
                    lemma_as_map_remove(v, i as int);
                }
                Some(e.1)
            },
            None => {
                assert(self.view().remove(label@) =~= self.view());
                None
            },
        }
    }

    /// Takes everything away.
    pub fn clear(&mut self)
        ensures
            final(self).wf(),
            final(self).view() == Map::<Seq<char>, T>::empty(),
    {
        self.entries = Vec::new();
    }
}

} // verus!
