//! What the sketch of a document holds, and what it is to be alike.

use crate::similar::{
    alike, alphanumeric, common, compared, has_sketch, increasing, is_sketch, lengths, lower_of,
    normal_prefix, normal_text, overlap, pairs_before, percent, shingle_hash, shingle_hashes, used_up,
    window_end,
};
use crate::text::white;
use vstd::prelude::*;

verus! {

// ---------------------------------------------------------------------------- sketches

/// Whether a number is the hash of the window that starts at three times `k`.
pub open spec fn hash_at(s: Seq<char>, k: int, x: u64) -> bool {
    x == shingle_hash(s, 3 * k, 16)
}

/// The sketch of a text holds the hash of every window of sixteen characters that starts at a
/// multiple of three, and no other number, each once.
pub proof fn law_sketch_holds_every_window(s: Seq<char>, v: Seq<u64>)
    requires
        is_sketch(s, v),
    ensures
        forall|k: int, x: u64|
            0 <= k && 3 * k + 16 <= s.len() && #[trigger] hash_at(s, k, x) ==> v.contains(x),
        forall|x: u64| #[trigger]
            v.contains(x) ==> exists|k: int|
                0 <= k && 3 * k + 16 <= s.len() && #[trigger] hash_at(s, k, x),
        forall|i: int, j: int| 0 <= i < j < v.len() ==> v[i] < v[j],
{
    let all = shingle_hashes(s);
    assert forall|k: int, x: u64|
        0 <= k && 3 * k + 16 <= s.len() && #[trigger] hash_at(s, k, x) implies v.contains(x) by {
        assert(all[k] == x);
        assert(all.contains(x));
    }
    assert forall|x: u64| #[trigger] v.contains(x) implies exists|k: int|
        0 <= k && 3 * k + 16 <= s.len() && #[trigger] hash_at(s, k, x) by {
        assert(all.contains(x));
        let k = choose|k: int| 0 <= k < all.len() && all[k] == x;
        assert(hash_at(s, k, x));
    }
}

/// Only a text of at least ninety-six characters with at least twenty-four different windows
/// has a sketch.
pub proof fn law_short_text_has_no_sketch(s: Seq<char>, v: Seq<u64>)
    requires
        is_sketch(s, v),
    ensures
        s.len() < 96 ==> !has_sketch(s),
        v.len() < 24 ==> !has_sketch(s),
        s.len() >= 96 && v.len() >= 24 ==> has_sketch(s),
{
    if s.len() >= 96 && v.len() >= 24 {
        assert forall|w: Seq<u64>| is_sketch(s, w) implies w.len() >= 24 by {
            assert(w.to_set() =~= v.to_set());
            lemma_distinct(w);
            lemma_distinct(v);
        }
    }
}

proof fn lemma_distinct(v: Seq<u64>)
    requires
        increasing(v),
    ensures
        v.to_set().len() == v.len(),
        v.to_set().finite(),
{
    assert(v.no_duplicates());
    v.unique_seq_to_set();
}

/// Windows with the same characters have the same hash, wherever they stand.
pub proof fn law_same_window_same_hash(s: Seq<char>, i: int, t: Seq<char>, j: int, k: nat)
    requires
        forall|x: int| 0 <= x < k ==> #[trigger] s[i + x] == t[j + x],
    ensures
        shingle_hash(s, i, k) == shingle_hash(t, j, k),
    decreases k,
{
    if k > 0 {
        let m = (k - 1) as nat;
        law_same_window_same_hash(s, i, t, j, m);
        assert(s[i + m] == t[j + m]);
        assert(i + m == i + k - 1);
    }
}

/// Windows that differ in one character have different hashes.
pub proof fn law_other_window_other_hash(
    s: Seq<char>,
    i: int,
    t: Seq<char>,
    j: int,
    k: nat,
    at: int,
)
    requires
        0 <= at < k,
        forall|x: int| 0 <= x < k && x != at ==> #[trigger] s[i + x] == t[j + x],
        s[i + at] != t[j + at],
        (s[i + at] as u32) < 0x10000,
        (t[j + at] as u32) < 0x10000,
    ensures
        shingle_hash(s, i, k) != shingle_hash(t, j, k),
    decreases k,
{
    let m = (k - 1) as nat;
    assert(i + m == i + k - 1 && j + m == j + k - 1);
    let c = s[i + m] as u32;
    let d = t[j + m] as u32;
    let g = shingle_hash(s, i, m);
    let h = shingle_hash(t, j, m);
    if at == m {
        law_same_window_same_hash(s, i, t, j, m);
        assert(i + at == i + m && j + at == j + m);
        assert(s[i + m] != t[j + m]);
        lemma_number_of(s[i + m]);
        lemma_number_of(t[j + m]);
        assert(c != d);
        assert((g ^ (c as u64)) != (g ^ (d as u64))) by (bit_vector)
            requires
                c != d,
        ;
        let x = (g ^ (c as u64)).wrapping_mul(0x100000001b3);
        let y = (g ^ (d as u64)).wrapping_mul(0x100000001b3);
        lemma_times_apart(g ^ (c as u64), g ^ (d as u64));
        assert((x ^ ((c >> 16u32) as u64)) != (y ^ ((d >> 16u32) as u64))) by (bit_vector)
            requires
                x != y,
                c < 0x10000,
                d < 0x10000,
        ;
        lemma_times_apart(x ^ ((c >> 16u32) as u64), y ^ ((d >> 16u32) as u64));
    } else {
        law_other_window_other_hash(s, i, t, j, m, at);
        assert(s[i + m] == t[j + m]);
        assert((g ^ (c as u64)) != (h ^ (c as u64))) by (bit_vector)
            requires
                g != h,
        ;
        let x = (g ^ (c as u64)).wrapping_mul(0x100000001b3);
        let y = (h ^ (c as u64)).wrapping_mul(0x100000001b3);
        lemma_times_apart(g ^ (c as u64), h ^ (c as u64));
        assert((x ^ ((c >> 16u32) as u64)) != (y ^ ((c >> 16u32) as u64))) by (bit_vector)
            requires
                x != y,
        ;
        lemma_times_apart(x ^ ((c >> 16u32) as u64), y ^ ((c >> 16u32) as u64));
    }
}

proof fn lemma_number_of(c: char)
    ensures
        (c as u32) as int == c as int,
{
}

/// The multiplier has an inverse, so what it is multiplied with stays apart.
proof fn lemma_times_apart(a: u64, b: u64)
    requires
        a != b,
    ensures
        a.wrapping_mul(0x100000001b3) != b.wrapping_mul(0x100000001b3),
{
    let m: int = 0x1_0000_0000_0000_0000;
    let p: int = 0x100000001b3;
    let q: int = 0xce965057aff6957b;
    if a.wrapping_mul(0x100000001b3) == b.wrapping_mul(0x100000001b3) {
        assert((a * p) % m == (b * p) % m);
        lemma_undo(a as int, p, q, m);
        lemma_undo(b as int, p, q, m);
    }
}

proof fn lemma_undo(a: int, p: int, q: int, m: int)
    requires
        0 <= a < m,
        m == 0x1_0000_0000_0000_0000,
        (p * q) % m == 1,
    ensures
        (((a * p) % m) * q) % m == a,
{
    vstd::arithmetic::div_mod::lemma_mul_mod_noop_left(a * p, q, m);
    assert((a * p) * q == a * (p * q)) by (nonlinear_arith);
    vstd::arithmetic::div_mod::lemma_mul_mod_noop_right(a, p * q, m);
    assert(a * 1 == a);
    vstd::arithmetic::div_mod::lemma_small_mod(a as nat, m as nat);
}

// ------------------------------------------------------------------------- normal texts

proof fn lemma_prefix(s: Seq<char>, t: Seq<char>, n: int)
    requires
        0 <= n <= s.len(),
        n <= t.len(),
        s.take(n) == t.take(n),
    ensures
        normal_prefix(s, n) == normal_prefix(t, n),
    decreases n,
{
    if n > 0 {
        assert(s.take(n - 1) =~= s.take(n).take(n - 1));
        assert(t.take(n - 1) =~= t.take(n).take(n - 1));
        assert(s.take(n)[n - 1] == s[n - 1] && t.take(n)[n - 1] == t[n - 1]);
        assert(s[n - 1] == t[n - 1]);
        lemma_prefix(s, t, n - 1);
    }
}

/// Two texts that have come to the same go on to the same.
proof fn lemma_rest(a: Seq<char>, b: Seq<char>, rest: Seq<char>)
    requires
        normal_prefix(a, a.len() as int) == normal_prefix(b, b.len() as int),
    ensures
        normal_prefix(a + rest, (a + rest).len() as int) == normal_prefix(
            b + rest,
            (b + rest).len() as int,
        ),
    decreases rest.len(),
{
    if rest.len() == 0 {
        assert(a + rest =~= a && b + rest =~= b);
    } else {
        let front = rest.drop_last();
        lemma_rest(a, b, front);
        assert((a + rest).take((a + front).len() as int) =~= (a + front).take(
            (a + front).len() as int,
        ));
        assert((b + rest).take((b + front).len() as int) =~= (b + front).take(
            (b + front).len() as int,
        ));
        lemma_prefix(a + rest, a + front, (a + front).len() as int);
        lemma_prefix(b + rest, b + front, (b + front).len() as int);
    }
}

proof fn lemma_push(a: Seq<char>, c: char)
    ensures
        normal_prefix(a.push(c), a.len() as int) == normal_prefix(a, a.len() as int),
        a.push(c)[a.len() as int] == c,
{
    assert(a.push(c).take(a.len() as int) =~= a.take(a.len() as int));
    lemma_prefix(a.push(c), a, a.len() as int);
}

/// A character that is neither white nor a letter nor a number changes nothing.
pub proof fn law_signs_do_not_count(a: Seq<char>, c: char, b: Seq<char>)
    requires
        !white(c),
        !alphanumeric(c),
    ensures
        normal_text(a + seq![c] + b) == normal_text(a + b),
{
    lemma_push(a, c);
    assert(a + seq![c] =~= a.push(c));
    lemma_rest(a.push(c), a, b);
}

/// White space counts once, whatever it is made of, and not at all at either end.
pub proof fn law_white_counts_once(a: Seq<char>, c: char, d: char, e: char, b: Seq<char>)
    requires
        white(c),
        white(d),
        white(e),
    ensures
        normal_text(a + seq![c] + seq![d] + b) == normal_text(a + seq![e] + b),
        normal_text(a + seq![c]) == normal_text(a),
        normal_text(seq![c] + a) == normal_text(a),
{
    lemma_push(a, c);
    lemma_push(a, e);
    lemma_push(a.push(c), d);
    assert(a + seq![c] =~= a.push(c));
    assert(a + seq![e] =~= a.push(e));
    assert(a + seq![c] + seq![d] =~= a.push(c).push(d));
    lemma_rest(a.push(c).push(d), a.push(e), b);
    let no = Seq::<char>::empty();
    lemma_push(no, c);
    assert(seq![c] =~= no.push(c));
    assert(normal_prefix(seq![c], 1) == normal_prefix(no, 0));
    lemma_rest(seq![c], no, a);
    assert(no + a =~= a);
}

/// A letter or a number goes into the normal form in lower case, directly behind another, or
/// behind one blank where white space stands between them.
pub proof fn law_letters_count(a: Seq<char>, c: char, w: char, d: char)
    requires
        alphanumeric(c),
        alphanumeric(d),
        !white(c),
        !white(d),
        white(w),
    ensures
        normal_text(seq![c]) == lower_of(c),
        normal_text(a + seq![c] + seq![d]) == normal_text(a + seq![c]) + lower_of(d),
        normal_text(a).len() > 0 ==> normal_text(a + seq![w] + seq![d]) == normal_text(a) + seq![' ']
            + lower_of(d),
{
    let no = Seq::<char>::empty();
    lemma_push(no, c);
    assert(seq![c] =~= no.push(c));
    assert(no + lower_of(c) =~= lower_of(c));
    lemma_push(a, c);
    lemma_push(a.push(c), d);
    assert(a + seq![c] =~= a.push(c));
    assert(a + seq![c] + seq![d] =~= a.push(c).push(d));
    lemma_push(a, w);
    lemma_push(a.push(w), d);
    assert(a + seq![w] =~= a.push(w));
    assert(a + seq![w] + seq![d] =~= a.push(w).push(d));
    assert(normal_text(a).push(' ') =~= normal_text(a) + seq![' ']);
}

// --------------------------------------------------------------------------- likeness

proof fn lemma_common(a: Seq<u64>, n: int, b: Seq<u64>)
    requires
        increasing(a),
        0 <= n <= a.len(),
    ensures
        common(a, n, b) == a.take(n).to_set().intersect(b.to_set()).len(),
        a.take(n).to_set().intersect(b.to_set()).finite(),
    decreases n,
{
    let now = a.take(n).to_set().intersect(b.to_set());
    if n == 0 {
        assert(now =~= Set::empty());
    } else {
        lemma_common(a, n - 1, b);
        let m = n - 1;
        let front = a.take(m);
        let before = front.to_set().intersect(b.to_set());
        let x = a[m];
        assert(a.take(n) =~= front.push(x));
        assert forall|y: u64| #[trigger] a.take(n).to_set().contains(y) == (
        front.to_set().contains(y) || y == x) by {
            if a.take(n).contains(y) {
                let k = choose|k: int| 0 <= k < n && a.take(n)[k] == y;
                if k < m {
                    assert(front[k] == y);
                }
            }
            if front.contains(y) {
                let k = choose|k: int| 0 <= k < front.len() && front[k] == y;
                assert(a.take(n)[k] == y);
            }
            assert(a.take(n)[m] == x);
        }
        if front.contains(x) {
            let k = choose|k: int| 0 <= k < front.len() && front[k] == x;
            assert(a[k] < a[m]);
        }
        if b.contains(x) {
            assert(now =~= before.insert(x));
        } else {
            assert(now =~= before);
        }
    }
}

/// What two sketches have in common is what is in both, and the whole is what is in either.
pub proof fn law_overlap_is_of_sets(a: Seq<u64>, b: Seq<u64>)
    requires
        increasing(a),
        increasing(b),
    ensures
        overlap(a, b).0 == a.to_set().intersect(b.to_set()).len(),
        overlap(a, b).1 == a.to_set().union(b.to_set()).len(),
        overlap(a, b) == overlap(b, a),
        overlap(a, b).0 <= a.len(),
        overlap(a, b).0 <= b.len(),
{
    lemma_common(a, a.len() as int, b);
    lemma_common(b, b.len() as int, a);
    assert(a.take(a.len() as int) =~= a);
    assert(b.take(b.len() as int) =~= b);
    lemma_distinct(a);
    lemma_distinct(b);
    assert(a.to_set().intersect(b.to_set()) =~= b.to_set().intersect(a.to_set()));
    vstd::set_lib::lemma_set_intersect_union_lens(a.to_set(), b.to_set());
    vstd::set_lib::lemma_len_intersect(a.to_set(), b.to_set());
    vstd::set_lib::lemma_len_intersect(b.to_set(), a.to_set());
}

/// Two documents are alike where what they have in common is at least eighty hundredths of the
/// whole; a document is like itself in all of it, and unlike one with which it shares nothing.
pub proof fn law_alike(a: Seq<u64>, b: Seq<u64>)
    requires
        increasing(a),
        increasing(b),
        a.len() > 0,
    ensures
        alike(a, b) == (100 * a.to_set().intersect(b.to_set()).len() >= 80 * a.to_set().union(
            b.to_set(),
        ).len()),
        alike(a, b) == alike(b, a),
        percent(a, b) == percent(b, a),
        percent(a, b) <= 100,
        alike(a, b) ==> percent(a, b) >= 80,
        alike(a, a) && percent(a, a) == 100,
        a.to_set().disjoint(b.to_set()) ==> !alike(a, b) && percent(a, b) == 0,
{
    law_overlap_is_of_sets(a, b);
    law_overlap_is_of_sets(a, a);
    let o = overlap(a, b);
    lemma_distinct(a);
    assert(a.to_set().intersect(a.to_set()) =~= a.to_set());
    assert(o.1 == a.len() + b.len() - o.0);
    let n = a.len();
    assert(overlap(a, a) == (n, n));
    assert((200 * n + n) / (2 * n) == 100) by {
        vstd::arithmetic::div_mod::lemma_fundamental_div_mod_converse(
            (200 * n + n) as int,
            (2 * n) as int,
            100,
            n as int,
        );
    }
    if a.to_set().disjoint(b.to_set()) {
        assert(a.to_set().intersect(b.to_set()) =~= Set::empty());
        let u = o.1;
        assert((200 * 0 + u) / (2 * u) == 0) by {
            vstd::arithmetic::div_mod::lemma_fundamental_div_mod_converse(
                u as int,
                (2 * u) as int,
                0,
                u as int,
            );
        }
    }
    if alike(a, b) {
        let x = o.0;
        let u = o.1;
        assert((200 * x + u) / (2 * u) >= 80) by (nonlinear_arith)
            requires
                5 * x >= 4 * u,
                u > 0,
        ;
    }
}

/// No document is passed over: while comparisons are left, every two that are alike are
/// compared.
pub proof fn law_alike_are_compared(sk: Seq<Seq<u64>>, i: int, j: int)
    requires
        0 <= i < j < sk.len(),
        forall|x: int| 0 <= x < sk.len() ==> increasing(#[trigger] sk[x]),
        forall|x: int, y: int|
            0 <= x <= y < sk.len() ==> (#[trigger] sk[x]).len() <= (#[trigger] sk[y]).len(),
        alike(sk[i], sk[j]),
        !used_up(lengths(sk)),
    ensures
        compared(lengths(sk), i, j),
{
    let lens = lengths(sk);
    law_overlap_is_of_sets(sk[i], sk[j]);
    let o = overlap(sk[i], sk[j]);
    assert(o.0 <= sk[i].len());
    assert(4 * sk[j].len() <= 5 * sk[i].len());
    lemma_within(lens, i, i + 1, j);
    lemma_before(lens, i, lens.len() as int);
}

proof fn lemma_within(lens: Seq<nat>, i: int, from: int, j: int)
    requires
        0 <= i < from <= j < lens.len(),
        forall|x: int, y: int| 0 <= x <= y < lens.len() ==> lens[x] <= lens[y],
        4 * lens[j] <= 5 * lens[i],
    ensures
        j < window_end(lens, i, from),
    decreases j - from,
{
    assert(lens[from] <= lens[j]);
    if from < j {
        lemma_within(lens, i, from + 1, j);
    } else {
        lemma_end(lens, i, from + 1);
    }
}

proof fn lemma_end(lens: Seq<nat>, i: int, from: int)
    requires
        0 <= from <= lens.len(),
    ensures
        from <= window_end(lens, i, from) <= lens.len(),
    decreases lens.len() - from,
{
    if from < lens.len() {
        lemma_end(lens, i, from + 1);
    }
}

proof fn lemma_before(lens: Seq<nat>, i: int, n: int)
    requires
        0 <= i < n <= lens.len(),
    ensures
        pairs_before(lens, i) + (window_end(lens, i, i + 1) - (i + 1)) <= pairs_before(lens, n),
    decreases n,
{
    lemma_end(lens, n - 1, n);
    if i < n - 1 {
        lemma_before(lens, i, n - 1);
    }
}

} // verus!
