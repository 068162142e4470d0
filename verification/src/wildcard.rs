//! File name patterns: `*` stands for any run of characters, `?` for one.

use crate::text::{chars_of, lowercase};
use vstd::prelude::*;

verus! {

/// Whether the name from position `i` on matches the pattern from `j` on.
pub open spec fn wild(n: Seq<char>, i: int, p: Seq<char>, j: int) -> bool
    decreases (n.len() - i) + (p.len() - j), p.len() - j,
    when 0 <= i <= n.len() && 0 <= j <= p.len()
{
    if j == p.len() {
        i == n.len()
    } else if p[j] == '*' {
        wild(n, i, p, j + 1) || (i < n.len() && wild(n, i + 1, p, j))
    } else {
        i < n.len() && (p[j] == '?' || p[j] == n[i]) && wild(n, i + 1, p, j + 1)
    }
}

/// What a star can match from a later place it can match from an earlier one.
proof fn lemma_star_absorbs(n: Seq<char>, a: int, b: int, p: Seq<char>, j: int)
    requires
        0 <= a <= b <= n.len(),
        0 <= j < p.len(),
        p[j] == '*',
        wild(n, b, p, j),
    ensures
        wild(n, a, p, j),
    decreases b - a,
{
    if a < b {
        lemma_star_absorbs(n, a + 1, b, p, j);
    }
}

/// A stretch of the pattern without stars takes as many characters.
proof fn lemma_plain_stretch(n: Seq<char>, i: int, p: Seq<char>, j: int, k: int)
    requires
        0 <= i <= n.len(),
        0 <= j <= k <= p.len(),
        forall|x: int| j <= x < k ==> p[x] != '*',
        wild(n, i, p, j),
    ensures
        i + (k - j) <= n.len(),
        wild(n, i + (k - j), p, k),
    decreases k - j,
{
    if j < k {
        assert(p[j] != '*');
        lemma_plain_stretch(n, i + 1, p, j + 1, k);
    }
}

/// A match that begins with a star matches what is behind the star somewhere.
proof fn lemma_star_somewhere(n: Seq<char>, i: int, p: Seq<char>, j: int) -> (k: int)
    requires
        0 <= i <= n.len(),
        0 <= j < p.len(),
        p[j] == '*',
        wild(n, i, p, j),
    ensures
        i <= k <= n.len(),
        wild(n, k, p, j + 1),
    decreases n.len() - i,
{
    if wild(n, i, p, j + 1) {
        i
    } else {
        lemma_star_somewhere(n, i + 1, p, j)
    }
}

/// A whole match through a star at `st` whose next stretch, tried at `mark`,
/// reaches a further star at `j` goes on from that star.
proof fn lemma_next_star(n: Seq<char>, mark: int, i: int, p: Seq<char>, st: int, j: int)
    requires
        0 <= mark <= i <= n.len(),
        0 <= st < j < p.len(),
        p[st] == '*',
        p[j] == '*',
        i - mark == j - (st + 1),
        forall|x: int| st < x < j ==> p[x] != '*',
        wild(n, mark, p, st),
    ensures
        wild(n, i, p, j),
{
    let k = lemma_star_somewhere(n, mark, p, st);
    lemma_plain_stretch(n, k, p, st + 1, j);
    lemma_star_absorbs(n, i, k + (j - (st + 1)), p, j);
}

fn wild_chars(n: &Vec<char>, p: &Vec<char>) -> (out: bool)
    ensures
        out == wild(n@, 0, p@, 0),
{
    let ghost full = wild(n@, 0, p@, 0);
    let mut i: usize = 0;
    let mut j: usize = 0;
    let mut star: Option<usize> = None;
    let mut mark: usize = 0;
    while i < n.len()
        invariant
            i <= n.len(),
            j <= p.len(),
            mark <= i,
            full == wild(n@, 0, p@, 0),
            star is None ==> full == wild(n@, i as int, p@, j as int),
            star is Some ==> {
                let st = star->0;
                &&& st < j
                &&& p@[st as int] == '*'
                &&& i - mark == j - (st + 1)
                &&& forall|x: int| st < x < j ==> p@[x] != '*'
                &&& full == wild(n@, mark as int, p@, st as int)
                &&& wild(n@, mark as int, p@, st + 1) == wild(n@, i as int, p@, j as int)
            },
        decreases n.len() - mark, p.len() - j, n.len() - i,
    {
        if j < p.len() && p[j] == '*' {
            proof {
                if star is Some && full {
                    lemma_next_star(
                        n@,
                        mark as int,
                        i as int,
                        p@,
                        star->0 as int,
                        j as int,
                    );
                }
                if star is Some && wild(n@, i as int, p@, j as int) {
                    assert(wild(n@, mark as int, p@, star->0 + 1));
                    assert(full);
                }
                assert(full == wild(n@, i as int, p@, j as int));
            }
            star = Some(j);
            mark = i;
            j += 1;
        } else if j < p.len() && (p[j] == '?' || p[j] == n[i]) {
            i += 1;
            j += 1;
        } else {
            match star {
                None => {
                    return false;
                },
                Some(st) => {
                    assert(!wild(n@, i as int, p@, j as int));
                    assert(wild(n@, mark as int, p@, st as int) == wild(
                        n@,
                        mark + 1,
                        p@,
                        st as int,
                    ));
                    j = st + 1;
                    mark += 1;
                    i = mark;
                },
            }
        }
    }
    proof {
        if star is Some {
            let st = star->0;
            if full {
                let k = lemma_star_somewhere(n@, mark as int, p@, st as int);
                lemma_plain_stretch(n@, k, p@, st + 1, j as int);
                assert(k == mark);
            } else {
                assert(!wild(n@, mark as int, p@, st + 1));
            }
        }
        assert(full == wild(n@, i as int, p@, j as int));
    }
    while j < p.len() && p[j] == '*'
        invariant
            i == n@.len(),
            j <= p@.len(),
            full == wild(n@, i as int, p@, j as int),
        decreases p@.len() - j,
    {
        j += 1;
    }
    j == p.len()
}

/// Whether a file name matches a pattern, without regard to case.
pub open spec fn name_matches(name: Seq<char>, pattern: Seq<char>) -> bool {
    wild(lowercase(name), 0, lowercase(pattern), 0)
}

/// Whether a file name matches a pattern, without regard to case.
pub fn wildcard_match(name: &str, pattern: &str) -> (out: bool)
    ensures
        out == name_matches(name@, pattern@),
{
    let n: Vec<char> = chars_of(name.to_lowercase().as_str());
    let p: Vec<char> = chars_of(pattern.to_lowercase().as_str());
    wild_chars(&n, &p)
}

/// A pattern that is one star matches every text, the empty one included.
pub proof fn law_star_matches_all(n: Seq<char>)
    ensures
        wild(n, 0, seq!['*'], 0),
{
    let p = seq!['*'];
    assert(wild(n, n.len() as int, p, 1));
    lemma_star_absorbs(n, 0, n.len() as int, p, 0);
}

/// A pattern without `*` and `?` matches itself and nothing else.
pub proof fn law_plain_matches_itself(n: Seq<char>, p: Seq<char>)
    requires
        !p.contains('*'),
        !p.contains('?'),
    ensures
        wild(n, 0, p, 0) == (n == p),
{
    assert(n.take(0) =~= p.take(0));
    lemma_plain_from(n, p, 0);
}

proof fn lemma_plain_from(n: Seq<char>, p: Seq<char>, i: int)
    requires
        !p.contains('*'),
        !p.contains('?'),
        0 <= i <= n.len(),
        i <= p.len(),
        n.take(i) == p.take(i),
    ensures
        wild(n, i, p, i) == (n == p),
    decreases p.len() - i,
{
    if i == p.len() {
        assert(n.take(i) =~= p);
        if i == n.len() {
            assert(n.take(i) =~= n);
        }
    } else {
        assert(p[i] != '*' && p[i] != '?') by {
            assert(p.contains(p[i]));
        }
        if i < n.len() && n[i] == p[i] {
            assert(n.take(i + 1) =~= n.take(i).push(n[i]));
            assert(p.take(i + 1) =~= p.take(i).push(p[i]));
            lemma_plain_from(n, p, i + 1);
        }
    }
}

} // verus!
