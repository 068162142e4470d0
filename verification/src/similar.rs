//! Documents whose texts are nearly the same: sketches of texts, how much two
//! sketches have in common, and the groups that similar pairs make.

use crate::docx::{decode_lossy, document_name, document_text, extract_docx_text, lossy_text};
use crate::text::{chars_of, same, white};
use vstd::prelude::*;

verus! {

/// Whether a character is a letter or a number in the sense of Unicode.
pub uninterp spec fn alphanumeric(c: char) -> bool;

/// The lower case of one character, which may be several.
pub uninterp spec fn lower_of(c: char) -> Seq<char>;

/// `char::is_alphanumeric` tells whether a character is alphabetic or numeric;
/// the answer is a function of the character alone, and is named.
pub assume_specification[ char::is_alphanumeric ](c: char) -> (out: bool)
    ensures
        out == alphanumeric(c),
;

/// Calls `char::to_lowercase`, which yields the lower case of a character as one
/// or more characters. The result is a function of the character alone, and is
/// named.
#[verifier::external_body]
fn lower_char(c: char) -> (out: String)
    ensures
        out@ == lower_of(c),
{
    c.to_lowercase().to_string()
}

/// Calls `sort_unstable` of a slice, which puts numbers into ascending order and
/// neither adds nor drops any.
#[verifier::external_body]
fn sort_numbers(v: &mut Vec<u64>)
    ensures
        final(v)@.to_multiset() == old(v)@.to_multiset(),
        forall|a: int, b: int|
            0 <= a < b < final(v)@.len() ==> final(v)@[a] <= final(v)@[b],
{
    v.sort_unstable();
}

// ----------------------------------------------------------------------- normal texts

/// The normal form of the first `n` characters: letters and numbers in lower
/// case, one blank between two of them where white space stands between them,
/// whatever else does, nothing else; and whether such a blank is due.
pub open spec fn normal_prefix(s: Seq<char>, n: int) -> (Seq<char>, bool)
    decreases n,
{
    if n <= 0 {
        (Seq::empty(), false)
    } else {
        let before = normal_prefix(s, n - 1);
        let c = s[n - 1];
        if white(c) {
            (before.0, before.0.len() > 0)
        } else if alphanumeric(c) {
            (
                (if before.1 {
                    before.0.push(' ')
                } else {
                    before.0
                }) + lower_of(c),
                false,
            )
        } else {
            before
        }
    }
}

/// The normal form of a text.
pub open spec fn normal_text(s: Seq<char>) -> Seq<char> {
    normal_prefix(s, s.len() as int).0
}

/// The normal form of a text.
pub fn normalize_text(s: &str) -> (out: String)
    ensures
        out@ == normal_text(s@),
{
    let a: Vec<char> = chars_of(s);
    let mut out: String = String::new();
    let mut pending: bool = false;
    let mut any: bool = false;
    let mut i: usize = 0;
    assert(out@ =~= Seq::empty());
    while i < a.len()
        invariant
            i <= a@.len(),
            a@ == s@,
            any == (out@.len() > 0),
            (out@, pending) == normal_prefix(s@, i as int),
        decreases a@.len() - i,
    {
        let c: char = a[i];
        if c.is_whitespace() {
            pending = any;
        } else if c.is_alphanumeric() {
            if pending {
                out.push(' ');
            }
            out.append(lower_char(c).as_str());
            pending = false;
            any = out.as_str().unicode_len() > 0;
        }
        i += 1;
    }
    out
}

// --------------------------------------------------------------------------- sketches

/// How many characters one shingle spans.
pub const SHINGLE_WIDTH: usize = 16;

/// How many characters lie between the starts of two shingles.
pub const SHINGLE_STRIDE: usize = 3;

/// How many different shingles a sketch must have.
pub const SIM_MIN_SHINGLES: usize = 24;

/// The hash of the `k` characters from `i` on: each of them mixed in by its low
/// and its high half.
pub open spec fn shingle_hash(s: Seq<char>, i: int, k: nat) -> u64
    decreases k,
{
    if k == 0 {
        0xcbf29ce484222325
    } else {
        let h = shingle_hash(s, i, (k - 1) as nat);
        let c = s[i + k - 1] as u32;
        let g = (h ^ (c as u64)).wrapping_mul(0x100000001b3);
        (g ^ ((c >> 16u32) as u64)).wrapping_mul(0x100000001b3)
    }
}

/// How many shingles a text of `n` characters has.
pub open spec fn shingle_count(n: nat) -> nat {
    if n < 16 {
        0
    } else {
        (n - 16) as nat / 3 + 1
    }
}

/// The hashes of the shingles of a text.
pub open spec fn shingle_hashes(s: Seq<char>) -> Seq<u64> {
    Seq::new(shingle_count(s.len()), |k: int| shingle_hash(s, 3 * k, 16))
}

/// Whether numbers are in strictly ascending order.
pub open spec fn increasing(v: Seq<u64>) -> bool {
    forall|a: int, b: int| 0 <= a < b < v.len() ==> v[a] < v[b]
}

/// A sketch of a text: the different hashes of its shingles, in order.
#[derive(Debug)]
pub struct Sketch {
    hashes: Vec<u64>,
}

impl Sketch {
    #[verifier::type_invariant]
    spec fn ordered(self) -> bool {
        increasing(self.hashes@)
    }

    /// The hashes.
    pub closed spec fn view(self) -> Seq<u64> {
        self.hashes@
    }

    /// How many hashes there are.
    pub fn len(&self) -> (out: usize)
        ensures
            out == self.view().len(),
    {
        self.hashes.len()
    }
}

fn hash_at(s: &Vec<char>, i: usize) -> (out: u64)
    requires
        i + 16 <= s@.len(),
    ensures
        out == shingle_hash(s@, i as int, 16),
{
    let mut h: u64 = 0xcbf29ce484222325;
    let mut k: usize = 0;
    while k < 16
        invariant
            k <= 16,
            i + 16 <= s.len(),
            h == shingle_hash(s@, i as int, k as nat),
        decreases 16 - k,
    {
        let c: u32 = s[i + k] as u32;
        let g: u64 = (h ^ (c as u64)).wrapping_mul(0x100000001b3);
        h = (g ^ ((c >> 16u32) as u64)).wrapping_mul(0x100000001b3);
        k += 1;
    }
    h
}

fn drop_repeats(v: &Vec<u64>) -> (out: Vec<u64>)
    requires
        forall|a: int, b: int| 0 <= a < b < v@.len() ==> v@[a] <= v@[b],
    ensures
        increasing(out@),
        forall|x: u64| out@.contains(x) == v@.contains(x),
{
    let mut out: Vec<u64> = Vec::new();
    let mut i: usize = 0;
    while i < v.len()
        invariant
            i <= v@.len(),
            forall|a: int, b: int| 0 <= a < b < v@.len() ==> v@[a] <= v@[b],
            increasing(out@),
            forall|k: int| 0 <= k < out@.len() ==> v@.contains(#[trigger] out@[k]),
            forall|k: int| 0 <= k < i ==> out@.contains(#[trigger] v@[k]),
            out@.len() > 0 ==> i > 0 && out@.last() == v@[i - 1],
            i > 0 ==> out@.len() > 0,
        decreases v@.len() - i,
    {
        let x: u64 = v[i];
        let n: usize = out.len();
        let ghost before = out@;
        if n == 0 || out[n - 1] != x {
            out.push(x);
            assert(out@[n as int] == x);
            assert forall|k: int| 0 <= k < i implies out@.contains(#[trigger] v@[k]) by {
                let j = choose|j: int| 0 <= j < before.len() && before[j] == v@[k];
                assert(out@[j] == v@[k]);
            }
            if n > 0 {
                assert(v@[i - 1] <= v@[i as int]);
            }
            assert(increasing(out@));
        } else {
            assert(out@[n - 1] == x);
        }
        i += 1;
    }
    assert forall|x: u64| out@.contains(x) == v@.contains(x) by {
        if out@.contains(x) {
            let k = choose|k: int| 0 <= k < out@.len() && out@[k] == x;
            assert(v@.contains(out@[k]));
        }
        if v@.contains(x) {
            let k = choose|k: int| 0 <= k < v@.len() && v@[k] == x;
            assert(out@.contains(v@[k]));
        }
    }
    out
}

/// Whether `v` is the sketch of a normal text.
pub open spec fn is_sketch(s: Seq<char>, v: Seq<u64>) -> bool {
    increasing(v) && forall|x: u64| v.contains(x) == shingle_hashes(s).contains(x)
}

/// Whether a normal text has a sketch: it is long enough and has enough
/// different shingles.
pub open spec fn has_sketch(s: Seq<char>) -> bool {
    s.len() >= 96 && forall|v: Seq<u64>| is_sketch(s, v) ==> v.len() >= SIM_MIN_SHINGLES
}

/// An ordered sequence is known by what it holds.
proof fn lemma_increasing_unique(a: Seq<u64>, b: Seq<u64>)
    requires
        increasing(a),
        increasing(b),
        forall|x: u64| a.contains(x) == b.contains(x),
    ensures
        a == b,
    decreases a.len(),
{
    if a.len() == 0 {
        if b.len() > 0 {
            assert(b.contains(b[0]));
            assert(a.contains(b[0]));
        }
        assert(a =~= b);
    } else {
        assert(a.contains(a.last()));
        assert(b.contains(a.last()));
        let i = choose|i: int| 0 <= i < b.len() && b[i] == a.last();
        if i < b.len() - 1 {
            assert(b[i] < b[b.len() - 1]);
            assert(b.contains(b[b.len() - 1]));
            assert(a.contains(b[b.len() - 1]));
            let j = choose|j: int| 0 <= j < a.len() && a[j] == b[b.len() - 1];
            assert(a[j] <= a.last());
        }
        assert(b.last() == a.last());
        let a2 = a.drop_last();
        let b2 = b.drop_last();
        assert forall|x: u64| a2.contains(x) == b2.contains(x) by {
            if a2.contains(x) {
                let k = choose|k: int| 0 <= k < a2.len() && a2[k] == x;
                assert(a[k] == x && a[k] < a.last());
                assert(b.contains(x));
                let m = choose|m: int| 0 <= m < b.len() && b[m] == x;
                assert(b2[m] == x);
            }
            if b2.contains(x) {
                let k = choose|k: int| 0 <= k < b2.len() && b2[k] == x;
                assert(b[k] == x && b[k] < b.last());
                assert(a.contains(x));
                let m = choose|m: int| 0 <= m < a.len() && a[m] == x;
                assert(a2[m] == x);
            }
        }
        lemma_increasing_unique(a2, b2);
        assert(a =~= a2.push(a.last()));
        assert(b =~= b2.push(b.last()));
    }
}

/// The sketch of a normal text; `None` for a text that is too short or holds too
/// few different shingles.
pub fn shingle_set(norm: &str) -> (out: Option<Sketch>)
    ensures
        match out {
            Some(k) => has_sketch(norm@) && is_sketch(norm@, k.view()),
            None => !has_sketch(norm@),
        },
{
    let s: Vec<char> = chars_of(norm);
    if s.len() < SHINGLE_WIDTH * 6 {
        return None;
    }
    let mut raw: Vec<u64> = Vec::new();
    let mut i: usize = 0;
    while s.len() - i >= SHINGLE_WIDTH
        invariant
            s@ == norm@,
            s.len() >= 96,
            i == 3 * raw@.len(),
            raw@.len() <= shingle_count(s@.len()),
            i <= s.len(),
            raw@ == shingle_hashes(norm@).take(raw@.len() as int),
        decreases s.len() - i,
    {
        let h: u64 = hash_at(&s, i);
        raw.push(h);
        i += SHINGLE_STRIDE;
        assert(shingle_hashes(norm@).take(raw@.len() as int) =~= shingle_hashes(norm@).take(
            raw@.len() - 1,
        ).push(h));
    }
    assert(raw@.len() == shingle_count(s@.len()));
    assert(raw@ =~= shingle_hashes(norm@));
    let ghost before = raw@;
    sort_numbers(&mut raw);
    let v: Vec<u64> = drop_repeats(&raw);
    proof {
        before.to_multiset_ensures();
        raw@.to_multiset_ensures();
        assert forall|x: u64| v@.contains(x) == before.contains(x) by {
            assert(raw@.contains(x) == (raw@.to_multiset().count(x) > 0));
            assert(before.contains(x) == (before.to_multiset().count(x) > 0));
        }
        assert(is_sketch(norm@, v@));
        assert forall|w: Seq<u64>| is_sketch(norm@, w) implies w.len() == v@.len() by {
            lemma_increasing_unique(w, v@);
        }
    }
    if v.len() < SIM_MIN_SHINGLES {
        return None;
    }
    Some(Sketch { hashes: v })
}

/// The text of a document of the given kind, in normal form.
pub open spec fn document_normal(ext: Seq<char>, data: Seq<u8>) -> Option<Seq<char>> {
    if ext == "docx"@ {
        match document_text(data, document_name()) {
            Some(t) => Some(normal_text(t)),
            None => None,
        }
    } else {
        Some(normal_text(lossy_text(data)))
    }
}

/// The sketch of a document, from its extension in lower case and its bytes.
pub fn doc_sketch(ext: &str, data: &Vec<u8>) -> (out: Option<Sketch>)
    ensures
        match out {
            Some(k) => document_normal(ext@, data@) matches Some(t) && has_sketch(t) && is_sketch(
                t,
                k.view(),
            ),
            None => document_normal(ext@, data@) matches Some(t) ==> !has_sketch(t),
        },
{
    let text: String = if same(ext, "docx") {
        match extract_docx_text(data) {
            Some(t) => t,
            None => return None,
        }
    } else {
        decode_lossy(data)
    };
    let norm: String = normalize_text(text.as_str());
    shingle_set(norm.as_str())
}

// ------------------------------------------------------------------------- similarity

/// How many of the first `n` numbers of `a` are in `b`.
pub open spec fn common(a: Seq<u64>, n: int, b: Seq<u64>) -> nat
    decreases n,
{
    if n <= 0 {
        0
    } else {
        common(a, n - 1, b) + if b.contains(a[n - 1]) {
            1nat
        } else {
            0
        }
    }
}

/// How many numbers two sequences have in common, and how many there are in both
/// together.
pub open spec fn overlap(a: Seq<u64>, b: Seq<u64>) -> (nat, nat) {
    let inter = common(a, a.len() as int, b);
    (inter, (a.len() + b.len() - inter) as nat)
}

/// Whether the common part is at least four fifths of the whole.
pub open spec fn alike(a: Seq<u64>, b: Seq<u64>) -> bool {
    overlap(a, b).1 > 0 && 5 * overlap(a, b).0 >= 4 * overlap(a, b).1
}

/// The common part in hundredths of the whole, rounded, one hundred at most.
pub open spec fn percent(a: Seq<u64>, b: Seq<u64>) -> nat {
    let o = overlap(a, b);
    let p = (200 * o.0 + o.1) / (2 * o.1);
    if p > 100 {
        100
    } else {
        p
    }
}

proof fn lemma_common_rest(a: Seq<u64>, i: int, n: int, b: Seq<u64>)
    requires
        0 <= i <= n <= a.len(),
        forall|k: int| i <= k < n ==> !b.contains(#[trigger] a[k]),
    ensures
        common(a, n, b) == common(a, i, b),
    decreases n - i,
{
    if i < n {
        lemma_common_rest(a, i, n - 1, b);
    }
}

proof fn lemma_common_bound(a: Seq<u64>, n: int, b: Seq<u64>)
    requires
        0 <= n <= a.len(),
    ensures
        common(a, n, b) <= n,
    decreases n,
{
    if n > 0 {
        lemma_common_bound(a, n - 1, b);
    }
}

/// How much two sketches have in common: the numbers that are in both, and those
/// that are in one of them.
pub fn jaccard(a: &Sketch, b: &Sketch) -> (out: (u128, u128))
    ensures
        (out.0 as nat, out.1 as nat) == overlap(a.view(), b.view()),
        out.0 <= out.1 <= 0x2_0000_0000_0000_0000,
{
    proof {
        use_type_invariant(a);
        use_type_invariant(b);
    }
    let x: &Vec<u64> = &a.hashes;
    let y: &Vec<u64> = &b.hashes;
    let mut i: usize = 0;
    let mut j: usize = 0;
    let mut inter: usize = 0;
    while i < x.len() && j < y.len()
        invariant
            i <= x@.len(),
            j <= y@.len(),
            inter <= i,
            inter <= j,
            increasing(x@),
            increasing(y@),
            inter == common(x@, i as int, y@),
            i < x@.len() ==> forall|k: int| 0 <= k < j ==> y@[k] < x@[i as int],
        decreases x@.len() - i + y@.len() - j,
    {
        if x[i] < y[j] {
            assert(!y@.contains(x@[i as int])) by {
                if y@.contains(x@[i as int]) {
                    let k = choose|k: int| 0 <= k < y@.len() && y@[k] == x@[i as int];
                    if k > j {
                        assert(y@[j as int] < y@[k]);
                    }
                }
            }
            i += 1;
        } else if x[i] > y[j] {
            j += 1;
        } else {
            assert(y@.contains(x@[i as int]));
            inter += 1;
            i += 1;
            j += 1;
        }
    }
    proof {
        assert forall|k: int| i <= k < x@.len() implies !y@.contains(#[trigger] x@[k]) by {
            if y@.contains(x@[k]) {
                let m = choose|m: int| 0 <= m < y@.len() && y@[m] == x@[k];
                assert(y@[m] < x@[i as int]);
                if k > i {
                    assert(x@[i as int] < x@[k]);
                }
            }
        }
        lemma_common_rest(x@, i as int, x@.len() as int, y@);
    }
    (inter as u128, x.len() as u128 + (y.len() as u128 - inter as u128))
}

// ------------------------------------------------------------------- who is linked

/// Whether a labelling is the same at both ends of every pair.
pub open spec fn respects(pairs: Set<(int, int)>, label: Seq<int>) -> bool {
    forall|a: int, b: int| #[trigger]
        pairs.contains((a, b)) && 0 <= a < label.len() && 0 <= b < label.len() ==> label[a]
            == label[b]
}

/// Whether two of `n` things are linked by a chain of pairs: no labelling that
/// is the same at both ends of every pair tells them apart.
pub open spec fn linked(pairs: Set<(int, int)>, n: nat, a: int, b: int) -> bool {
    forall|label: Seq<int>|
        label.len() == n && #[trigger] respects(pairs, label) ==> label[a] == label[b]
}

/// A forest in which everything that is linked has one root.
struct Forest {
    parent: Vec<usize>,
    /// The root of each node.
    root: Ghost<Seq<int>>,
    /// A number that grows along the way to the root.
    height: Ghost<Seq<nat>>,
    /// More than any of these numbers.
    limit: Ghost<nat>,
}

impl Forest {
    spec fn wf(self) -> bool {
        let n = self.parent@.len();
        &&& self.root@.len() == n
        &&& self.height@.len() == n
        &&& forall|x: int| 0 <= x < n ==> (#[trigger] self.parent@[x]) < n
        &&& forall|x: int|
            0 <= x < n ==> {
                let p = (#[trigger] self.parent@[x]) as int;
                &&& self.root@[x] == if p == x {
                    x
                } else {
                    self.root@[p]
                }
                &&& p != x ==> self.height@[p] > self.height@[x]
                &&& self.height@[x] < self.limit@
                &&& 0 <= self.root@[x] < n
                &&& self.parent@[self.root@[x]] == self.root@[x]
            }
    }

    fn new(n: usize) -> (out: Self)
        ensures
            out.wf(),
            out.parent@.len() == n,
            out.root@ == Seq::new(n as nat, |i: int| i),
    {
        let mut parent: Vec<usize> = Vec::new();
        let mut i: usize = 0;
        while i < n
            invariant
                i <= n,
                parent@.len() == i,
                forall|x: int| 0 <= x < i ==> parent@[x] == x,
            decreases n - i,
        {
            parent.push(i);
            i += 1;
        }
        Forest {
            parent,
            root: Ghost(Seq::new(n as nat, |i: int| i)),
            height: Ghost(Seq::new(n as nat, |i: int| 0nat)),
            limit: Ghost(1nat),
        }
    }

    /// The root of a node; shortens the way to it.
    fn dsu_find(&mut self, from: usize) -> (out: usize)
        requires
            old(self).wf(),
            from < old(self).parent@.len(),
        ensures
            final(self).wf(),
            final(self).root == old(self).root,
            final(self).parent@.len() == old(self).parent@.len(),
            out == final(self).root@[from as int],
            out < final(self).parent@.len(),
            final(self).parent@[out as int] == out,
    {
        let mut x: usize = from;
        while self.parent[x] != x
            invariant
                self.wf(),
                self.root == old(self).root,
                self.height == old(self).height,
                self.limit == old(self).limit,
                self.parent@.len() == old(self).parent@.len(),
                x < self.parent@.len(),
                from < self.parent@.len(),
                self.root@[x as int] == self.root@[from as int],
            decreases self.limit@ - self.height@[x as int],
        {
            let p: usize = self.parent[x];
            let q: usize = self.parent[p];
            let ghost before = *self;
            assert(before.root@[x as int] == before.root@[p as int]);
            assert(before.height@[p as int] > before.height@[x as int]);
            assert(before.parent@[p as int] == q);
            assert(q == p || before.height@[q as int] > before.height@[p as int]);
            assert(before.parent@[q as int] < before.parent@.len());
            assert(before.height@[q as int] < before.limit@);
            self.parent.set(x, q);
            assert(self.wf()) by {
                assert forall|y: int| 0 <= y < self.parent@.len() implies {
                    let z = (#[trigger] self.parent@[y]) as int;
                    &&& self.root@[y] == if z == y {
                        y
                    } else {
                        self.root@[z]
                    }
                    &&& z != y ==> self.height@[z] > self.height@[y]
                    &&& self.height@[y] < self.limit@
                    &&& 0 <= self.root@[y] < self.parent@.len()
                    &&& self.parent@[self.root@[y]] == self.root@[y]
                } by {
                    assert(before.parent@[y] < before.parent@.len());
                    let r = before.root@[y];
                    assert(before.parent@[r] == r);
                    if r == x {
                        assert(before.parent@[x as int] == x);
                    }
                }
            }
            x = q;
        }
        x
    }

    /// Makes two trees one.
    fn unite(&mut self, a: usize, b: usize)
        requires
            old(self).wf(),
            a < old(self).parent@.len(),
            b < old(self).parent@.len(),
            old(self).parent@[a as int] == a,
            old(self).parent@[b as int] == b,
            a != b,
        ensures
            final(self).wf(),
            final(self).parent@.len() == old(self).parent@.len(),
            final(self).root@ == Seq::new(
                old(self).root@.len(),
                |i: int|
                    if old(self).root@[i] == b {
                        a as int
                    } else {
                        old(self).root@[i]
                    },
            ),
    {
        let ghost before = *self;
        self.parent.set(b, a);
        proof {
            self.root = Ghost(
                Seq::new(
                    before.root@.len(),
                    |i: int|
                        if before.root@[i] == b {
                            a as int
                        } else {
                            before.root@[i]
                        },
                ),
            );
            let h = before.height@[b as int] + 1;
            if before.height@[a as int] < h {
                self.height = Ghost(before.height@.update(a as int, h));
            }
            self.limit = Ghost(before.limit@ + 1);
            assert forall|y: int| 0 <= y < self.parent@.len() implies {
                let z = (#[trigger] self.parent@[y]) as int;
                &&& self.root@[y] == if z == y {
                    y
                } else {
                    self.root@[z]
                }
                &&& z != y ==> self.height@[z] > self.height@[y]
                &&& self.height@[y] < self.limit@
                &&& 0 <= self.root@[y] < self.parent@.len()
                &&& self.parent@[self.root@[y]] == self.root@[y]
            } by {
                let w = before.parent@[y];
                assert(w < before.parent@.len());
                assert(before.parent@[before.root@[y]] == before.root@[y]);
                assert(before.parent@[b as int] == b);
                assert(before.parent@[a as int] == a);
            }
        }
    }
}

/// Adding a pair merges the two groups that it links, and no others.
proof fn lemma_merge(
    pairs: Set<(int, int)>,
    n: nat,
    old_root: Seq<int>,
    new_root: Seq<int>,
    x: int,
    y: int,
)
    requires
        old_root.len() == n,
        0 <= x < n,
        0 <= y < n,
        new_root == Seq::new(
            n,
            |i: int|
                if old_root[i] == old_root[y] {
                    old_root[x]
                } else {
                    old_root[i]
                },
        ),
        respects(pairs, old_root),
        forall|a: int, b: int|
            0 <= a < n && 0 <= b < n && old_root[a] == old_root[b] ==> linked(pairs, n, a, b),
    ensures
        respects(pairs.insert((x, y)), new_root),
        forall|a: int, b: int|
            0 <= a < n && 0 <= b < n && new_root[a] == new_root[b] ==> linked(
                pairs.insert((x, y)),
                n,
                a,
                b,
            ),
{
    let more = pairs.insert((x, y));
    assert forall|a: int, b: int| #[trigger]
        more.contains((a, b)) && 0 <= a < new_root.len() && 0 <= b < new_root.len() implies
        new_root[a] == new_root[b] by {
        if (a, b) != (x, y) {
            assert(pairs.contains((a, b)));
        }
    }
    assert forall|a: int, b: int|
        0 <= a < n && 0 <= b < n && new_root[a] == new_root[b] implies linked(more, n, a, b) by {
        assert forall|label: Seq<int>|
            label.len() == n && #[trigger] respects(more, label) implies label[a] == label[b] by {
            assert(respects(pairs, label)) by {
                assert forall|c: int, d: int| #[trigger]
                    pairs.contains((c, d)) && 0 <= c < label.len() && 0 <= d < label.len() implies
                    label[c] == label[d] by {
                    assert(more.contains((c, d)));
                }
            }
            assert(more.contains((x, y)));
            assert(label[x] == label[y]);
            if old_root[a] == old_root[b] {
                assert(linked(pairs, n, a, b));
            } else {
                if old_root[a] == old_root[y] {
                    assert(linked(pairs, n, a, y));
                    assert(old_root[b] == old_root[x]);
                    assert(linked(pairs, n, b, x));
                } else {
                    assert(old_root[b] == old_root[y]);
                    assert(linked(pairs, n, b, y));
                    assert(linked(pairs, n, a, x));
                }
            }
        }
    }
}

// ---------------------------------------------------------------------- which pairs

/// How many pairs of one kind of document are compared at most.
pub const SIM_MAX_PAIRS: usize = 400_000;

/// The first document behind `i`, from `j` on, that is too long for `i` to be
/// four fifths of it. The documents are ordered by length.
pub open spec fn window_end(lens: Seq<nat>, i: int, j: int) -> int
    decreases lens.len() - j,
{
    if j < 0 || j >= lens.len() || 4 * lens[j] > 5 * lens[i] {
        j
    } else {
        window_end(lens, i, j + 1)
    }
}

/// How many pairs are compared before those of `i`.
pub open spec fn pairs_before(lens: Seq<nat>, i: int) -> int
    decreases i,
{
    if i <= 0 {
        0
    } else {
        pairs_before(lens, i - 1) + (window_end(lens, i - 1, i) - i)
    }
}

/// Whether two documents are compared: the second is not too long for the first,
/// and the number of comparisons is not used up.
pub open spec fn compared(lens: Seq<nat>, i: int, j: int) -> bool {
    0 <= i < j < window_end(lens, i, i + 1) && pairs_before(lens, i) + (j - i) <= SIM_MAX_PAIRS
}

/// Whether the number of comparisons was used up.
pub open spec fn used_up(lens: Seq<nat>) -> bool {
    pairs_before(lens, lens.len() as int) > SIM_MAX_PAIRS
}

/// The lengths of a list of sketches.
pub open spec fn lengths(sk: Seq<Seq<u64>>) -> Seq<nat> {
    Seq::new(sk.len(), |i: int| sk[i].len())
}

/// The pairs of documents that are compared and found alike.
pub open spec fn alike_pairs(sk: Seq<Seq<u64>>) -> Set<(int, int)> {
    Set::new(|p: (int, int)| compared(lengths(sk), p.0, p.1) && alike(sk[p.0], sk[p.1]))
}

proof fn lemma_window(lens: Seq<nat>, i: int, j: int)
    requires
        0 <= j <= lens.len(),
    ensures
        j <= window_end(lens, i, j) <= lens.len(),
    decreases lens.len() - j,
{
    if j < lens.len() && 4 * lens[j] <= 5 * lens[i] {
        lemma_window(lens, i, j + 1);
    }
}

proof fn lemma_pairs_grow(lens: Seq<nat>, a: int, b: int)
    requires
        0 <= a <= b <= lens.len(),
    ensures
        pairs_before(lens, a) <= pairs_before(lens, b),
    decreases b - a,
{
    if a < b {
        lemma_pairs_grow(lens, a, b - 1);
        lemma_window(lens, b - 1, b);
    }
}

/// The sketches that a list of references leads to.
pub open spec fn sketches(v: Seq<&Sketch>) -> Seq<Seq<u64>> {
    Seq::new(v.len(), |i: int| v[i].view())
}

/// The pairs found alike before the pair of `i` and `j`.
spec fn pairs_until(sk: Seq<Seq<u64>>, i: int, j: int) -> Set<(int, int)> {
    Set::new(
        |p: (int, int)|
            alike_pairs(sk).contains(p) && (p.0 < i || (p.0 == i && p.1 < j)),
    )
}

/// Whether the list holds a document with a percentage.
pub open spec fn has_entry(v: Seq<(usize, u64)>, a: int, p: nat) -> bool {
    exists|k: int| 0 <= k < v.len() && (#[trigger] v[k]).0 == a && v[k].1 == p
}

/// Whether an entry of the list is the first document of one of the pairs with
/// its percentage.
pub open spec fn from_pair(sk: Seq<Seq<u64>>, pairs: Set<(int, int)>, e: (usize, u64)) -> bool {
    exists|b: int| #[trigger]
        pairs.contains((e.0 as int, b)) && e.1 == percent(sk[e.0 as int], sk[b])
}

/// Whether the list holds the first document and the percentage of each of the
/// pairs, and nothing else.
pub open spec fn lists(sk: Seq<Seq<u64>>, pairs: Set<(int, int)>, v: Seq<(usize, u64)>) -> bool {
    &&& forall|a: int, b: int| #[trigger]
        pairs.contains((a, b)) ==> has_entry(v, a, percent(sk[a], sk[b]))
    &&& forall|k: int| 0 <= k < v.len() ==> from_pair(sk, pairs, #[trigger] v[k])
}

proof fn lemma_lists_push(
    sk: Seq<Seq<u64>>,
    pairs: Set<(int, int)>,
    v: Seq<(usize, u64)>,
    i: usize,
    j: int,
    pct: u64,
)
    requires
        lists(sk, pairs, v),
        pct == percent(sk[i as int], sk[j]),
    ensures
        lists(sk, pairs.insert((i as int, j)), v.push((i, pct))),
{
    let more = pairs.insert((i as int, j));
    let w = v.push((i, pct));
    assert forall|a: int, b: int| #[trigger] more.contains((a, b)) implies has_entry(
        w,
        a,
        percent(sk[a], sk[b]),
    ) by {
        if (a, b) == (i as int, j) {
            assert(w[v.len() as int] == (i, pct));
        } else {
            assert(pairs.contains((a, b)));
            assert(has_entry(v, a, percent(sk[a], sk[b])));
            let k = choose|k: int|
                0 <= k < v.len() && (#[trigger] v[k]).0 == a && v[k].1 == percent(sk[a], sk[b]);
            assert(w[k] == v[k]);
        }
    }
    assert forall|k: int| 0 <= k < w.len() implies from_pair(sk, more, #[trigger] w[k]) by {
        if k < v.len() {
            assert(w[k] == v[k]);
            assert(from_pair(sk, pairs, v[k]));
            let b = choose|b: int| #[trigger]
                pairs.contains((v[k].0 as int, b)) && v[k].1 == percent(
                    sk[v[k].0 as int],
                    sk[b],
                );
            assert(more.contains((w[k].0 as int, b)));
        } else {
            assert(more.contains((w[k].0 as int, j)));
        }
    }
}

fn percent_of(inter: u128, uni: u128) -> (out: u64)
    requires
        uni > 0,
        uni <= 0x2_0000_0000_0000_0000,
        inter <= uni,
    ensures
        ({
            let p = (200 * inter as nat + uni as nat) / (2 * uni as nat);
            out == if p > 100 {
                100
            } else {
                p
            }
        }),
{
    let p: u128 = (200 * inter + uni) / (2 * uni);
    if p > 100 {
        100
    } else {
        p as u64
    }
}

/// Compares the documents and links those that are alike. Returns the root of
/// each, the pairs with their percentages, and whether the comparisons were used
/// up.
pub fn link_alike(sk: &Vec<&Sketch>) -> (out: (Vec<usize>, Vec<(usize, u64)>, bool))
    ensures
        out.0@.len() == sk@.len(),
        forall|a: int, b: int|
            0 <= a < sk@.len() && 0 <= b < sk@.len() ==> (out.0@[a] == out.0@[b]) == linked(
                alike_pairs(sketches(sk@)),
                sk@.len(),
                a,
                b,
            ),
        lists(sketches(sk@), alike_pairs(sketches(sk@)), out.1@),
        out.2 == used_up(lengths(sketches(sk@))),
{
    let n: usize = sk.len();
    let ghost s = sketches(sk@);
    let ghost lens = lengths(s);
    let ghost all = alike_pairs(s);
    let mut forest: Forest = Forest::new(n);
    let mut edges: Vec<(usize, u64)> = Vec::new();
    let mut pairs: usize = 0;
    let mut capped: bool = false;
    let mut i: usize = 0;
    let ghost mut done: Set<(int, int)> = Set::empty();
    proof {
        assert(done =~= pairs_until(s, 0, 1)) by {
            assert forall|p: (int, int)| !pairs_until(s, 0, 1).contains(p) by {}
        }
        assert(respects(done, forest.root@));
        assert forall|a: int, b: int|
            0 <= a < n && 0 <= b < n && forest.root@[a] == forest.root@[b] implies linked(
            done,
            n as nat,
            a,
            b,
        ) by {
            assert(a == b);
        }
    }
    while i < n && !capped
        invariant
            i <= n,
            n == sk@.len(),
            s == sketches(sk@),
            s.len() == n,
            lens == lengths(s),
            all == alike_pairs(s),
            forest.wf(),
            forest.parent@.len() == n,
            pairs <= SIM_MAX_PAIRS,
            !capped ==> pairs == pairs_before(lens, i as int),
            !capped ==> done == pairs_until(s, i as int, i + 1),
            capped ==> done == all && used_up(lens),
            respects(done, forest.root@),
            forall|a: int, b: int|
                0 <= a < n && 0 <= b < n && forest.root@[a] == forest.root@[b] ==> linked(
                    done,
                    n as nat,
                    a,
                    b,
                ),
            lists(s, done, edges@),
        decreases n - i + (if capped { 0int } else { 1int }),
    {
        let li: u128 = sk[i].len() as u128;
        let mut j: usize = i + 1;
        while j < n && !capped && 4 * (sk[j].len() as u128) <= 5 * li
            invariant
                i < j <= n,
                n == sk@.len(),
                s == sketches(sk@),
                s.len() == n,
                lens == lengths(s),
                li == lens[i as int],
                li <= u64::MAX,
                all == alike_pairs(s),
                forest.wf(),
                forest.parent@.len() == n,
                pairs <= SIM_MAX_PAIRS,
                !capped ==> pairs == pairs_before(lens, i as int) + (j - (i + 1)),
                !capped ==> window_end(lens, i as int, i + 1) == window_end(
                    lens,
                    i as int,
                    j as int,
                ),
                !capped ==> done == pairs_until(s, i as int, j as int),
                capped ==> done == all && used_up(lens),
                respects(done, forest.root@),
                forall|a: int, b: int|
                    0 <= a < n && 0 <= b < n && forest.root@[a] == forest.root@[b] ==> linked(
                        done,
                        n as nat,
                        a,
                        b,
                    ),
                lists(s, done, edges@),
            decreases n - j + (if capped { 0int } else { 1int }),
        {
            proof {
                lemma_window(lens, i as int, j + 1);
                assert(window_end(lens, i as int, j as int) == window_end(lens, i as int, j + 1));
            }
            if pairs >= SIM_MAX_PAIRS {
                capped = true;
                proof {
                    lemma_pairs_grow(lens, i + 1, n as int);
                    assert(used_up(lens));
                    assert forall|p: (int, int)| all.contains(p) implies done.contains(p) by {
                        assert(compared(lens, p.0, p.1));
                        if p.0 > i {
                            lemma_pairs_grow(lens, i + 1, p.0);
                        }
                    }
                    assert(done =~= all);
                }
            } else {
                pairs += 1;
                let (inter, uni): (u128, u128) = jaccard(sk[i], sk[j]);
                proof {
                    lemma_common_bound(s[i as int], s[i as int].len() as int, s[j as int]);
                    assert(compared(lens, i as int, j as int));
                }
                let similar: bool = uni > 0 && 5 * inter >= 4 * uni;
                assert(similar == alike(s[i as int], s[j as int]));
                assert(all.contains((i as int, j as int)) == similar);
                if similar {
                    let pct: u64 = percent_of(inter, uni);
                    let ri: usize = forest.dsu_find(i);
                    let rj: usize = forest.dsu_find(j);
                    let ghost before = forest.root@;
                    if ri != rj {
                        forest.unite(ri, rj);
                    }
                    proof {
                        assert(forest.root@ =~= Seq::new(
                            n as nat,
                            |k: int|
                                if before[k] == before[j as int] {
                                    before[i as int]
                                } else {
                                    before[k]
                                },
                        ));
                        lemma_merge(done, n as nat, before, forest.root@, i as int, j as int);
                        lemma_lists_push(s, done, edges@, i, j as int, pct);
                        let more = done.insert((i as int, j as int));
                        assert(more =~= pairs_until(s, i as int, j + 1));
                        done = more;
                    }
                    edges.push((i, pct));
                } else {
                    proof {
                        assert(done =~= pairs_until(s, i as int, j + 1));
                    }
                }
                j += 1;
            }
        }
        if !capped {
            proof {
                assert(window_end(lens, i as int, j as int) == j);
                assert(done =~= pairs_until(s, i + 1, i + 2)) by {
                    assert forall|p: (int, int)|
                        pairs_until(s, i as int, j as int).contains(p) == pairs_until(
                            s,
                            i + 1,
                            i + 2,
                        ).contains(p) by {
                        if all.contains(p) {
                            assert(compared(lens, p.0, p.1));
                        }
                    }
                }
            }
            i += 1;
        }
    }
    proof {
        if !capped {
            assert(done =~= all) by {
                assert forall|p: (int, int)| all.contains(p) implies done.contains(p) by {
                    assert(compared(lens, p.0, p.1));
                    lemma_window(lens, p.0, p.0 + 1);
                }
            }
        }
    }
    let mut roots: Vec<usize> = Vec::new();
    let mut k: usize = 0;
    let ghost whole = forest.root@;
    while k < n
        invariant
            k <= n,
            n == sk@.len(),
            forest.wf(),
            forest.parent@.len() == n,
            forest.root@ == whole,
            roots@.len() == k,
            forall|a: int| 0 <= a < k ==> (#[trigger] roots@[a]) == whole[a],
        decreases n - k,
    {
        let r: usize = forest.dsu_find(k);
        roots.push(r);
        k += 1;
    }
    proof {
        assert(done == all);
        assert(whole.len() == n);
        assert forall|a: int, b: int| 0 <= a < n && 0 <= b < n implies (roots@[a] == roots@[b])
            == linked(all, n as nat, a, b) by {
            if linked(all, n as nat, a, b) {
                assert(respects(all, whole));
                assert(whole[a] == whole[b]);
            }
        }
    }
    (roots, edges, capped)
}

} // verus!
