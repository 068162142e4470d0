//! Directory patterns, expanded one path segment at a time.

use crate::protect::{bare, strip_prefix};
use crate::rulepath::{expand_env_path, expanded};
use crate::text::{
    drop_empty, ends_with, has_char, listed, lowercase, nonempty, pieces, same, split, texts,
    trim_trailing, without_trailing,
};
use crate::wildcard::{name_matches, wildcard_match};
use crate::world::{Entry, Kind, World};
use vstd::prelude::*;

verus! {

/// A path segment put behind a root.
pub open spec fn joined_path(r: Seq<char>, seg: Seq<char>) -> Seq<char> {
    if r == "\\"@ {
        "\\"@ + seg
    } else {
        without_trailing(r, '\\', '/') + "\\"@ + seg
    }
}

/// Puts a path segment behind a root.
pub fn join_path(r: &str, seg: &str) -> (out: String)
    ensures
        out@ == joined_path(r@, seg@),
{
    if same(r, "\\") {
        let mut out: String = "\\".to_owned();
        out.append(seg);
        out
    } else {
        let mut out: String = trim_trailing(r, '\\', '/');
        out.append("\\");
        out.append(seg);
        out
    }
}

/// Whether an entry is a directory that a pattern segment selects. A reparse
/// point never is, a hidden directory only where `force` asks for it.
pub open spec fn selected(e: Entry, seg: Seq<char>, force: bool) -> bool {
    !e.reparse && e.kind == Kind::Dir && (force || !e.hidden) && name_matches(e.name@, seg)
}

/// The paths of the selected entries among the first `n`.
pub open spec fn selected_paths(entries: Seq<Entry>, n: int, seg: Seq<char>, force: bool) -> Seq<
    Seq<char>,
>
    decreases n,
{
    if n <= 0 {
        Seq::empty()
    } else {
        let before = selected_paths(entries, n - 1, seg, force);
        if selected(entries[n - 1], seg, force) {
            before.push(entries[n - 1].path@)
        } else {
            before
        }
    }
}

/// The directories below `parent` that a pattern segment selects.
pub fn list_matching_dirs(parent: &str, seg: &str, force: bool, world: &World) -> (out: Vec<String>)
    ensures
        texts(out@) == selected_paths(
            world.listing(parent@),
            world.listing(parent@).len() as int,
            seg@,
            force,
        ),
{
    let mut out: Vec<String> = Vec::new();
    assert(texts(out@) =~= Seq::empty());
    match world.find(parent) {
        Some(e) => match &e.children {
            Some(c) => {
                let mut i: usize = 0;
                while i < c.len()
                    invariant
                        i <= c@.len(),
                        texts(out@) == selected_paths(c@, i as int, seg@, force),
                    decreases c@.len() - i,
                {
                    let x: &Entry = &c[i];
                    if !x.reparse && x.kind == Kind::Dir && (force || !x.hidden) && wildcard_match(
                        x.name.as_str(),
                        seg,
                    ) {
                        let p: String = x.path.clone();
                        proof {
                            crate::text::lemma_texts_push(out@, p);
                        }
                        out.push(p);
                    }
                    i += 1;
                }
            },
            None => {},
        },
        None => {},
    }
    out
}

/// Whether a segment holds a wildcard.
pub open spec fn is_wild(seg: Seq<char>) -> bool {
    seg.contains('*') || seg.contains('?')
}

/// The directories that a segment leads to from one root.
pub open spec fn step(r: Seq<char>, seg: Seq<char>, force: bool, w: World) -> Seq<Seq<char>> {
    if is_wild(seg) {
        selected_paths(w.listing(r), w.listing(r).len() as int, seg, force)
    } else if w.has_dir(joined_path(r, seg)) {
        seq![joined_path(r, seg)]
    } else {
        Seq::empty()
    }
}

/// The directories that a segment leads to from the first `n` roots.
pub open spec fn steps(roots: Seq<Seq<char>>, n: int, seg: Seq<char>, force: bool, w: World) -> Seq<
    Seq<char>,
>
    decreases n,
{
    if n <= 0 {
        Seq::empty()
    } else {
        steps(roots, n - 1, seg, force, w) + step(roots[n - 1], seg, force, w)
    }
}

/// The lower case of each text.
pub open spec fn lowered(list: Seq<Seq<char>>) -> Seq<Seq<char>> {
    Seq::new(list.len(), |i: int| lowercase(list[i]))
}

/// The first `n` texts without those that repeat an earlier one but for case.
pub open spec fn distinct(list: Seq<Seq<char>>, n: int) -> Seq<Seq<char>>
    decreases n,
{
    if n <= 0 {
        Seq::empty()
    } else {
        let before = distinct(list, n - 1);
        if lowered(before).contains(lowercase(list[n - 1])) {
            before
        } else {
            before.push(list[n - 1])
        }
    }
}

/// The directories that a list of segments leads to from the given roots.
pub open spec fn walk(
    roots: Seq<Seq<char>>,
    segs: Seq<Seq<char>>,
    i: int,
    force: bool,
    w: World,
) -> Seq<Seq<char>>
    decreases segs.len() - i,
{
    if i < 0 || i >= segs.len() {
        roots
    } else {
        let next = steps(roots, roots.len() as int, segs[i], force, w);
        walk(distinct(next, next.len() as int), segs, i + 1, force, w)
    }
}

/// Whether a full path holds a wildcard; the mark of a long path is none.
pub open spec fn is_pattern(full: Seq<char>) -> bool {
    full.contains('*') || bare(full).contains('?')
}

/// The directories that a pattern stands for.
pub open spec fn glob_dirs(pattern: Seq<char>, force: bool, w: World) -> Seq<Seq<char>> {
    let full = expanded(pattern, w.env);
    let segs = nonempty(pieces(full, '\\', '/'));
    if !is_pattern(full) {
        if w.has_dir(full) {
            seq![full]
        } else {
            Seq::empty()
        }
    } else if segs.len() == 0 {
        Seq::empty()
    } else if ":"@.is_suffix_of(segs[0]) {
        walk(seq![segs[0] + "\\"@], segs, 1, force, w)
    } else {
        walk(seq!["\\"@], segs, 0, force, w)
    }
}

proof fn lemma_lowered_push(list: Seq<Seq<char>>, t: Seq<char>)
    ensures
        lowered(list.push(t)) == lowered(list).push(lowercase(t)),
{
    assert(lowered(list.push(t)) =~= lowered(list).push(lowercase(t)));
}

fn unique(list: Vec<String>) -> (out: Vec<String>)
    ensures
        texts(out@) == distinct(texts(list@), list@.len() as int),
{
    let mut out: Vec<String> = Vec::new();
    let mut seen: Vec<String> = Vec::new();
    let mut i: usize = 0;
    assert(texts(out@) =~= Seq::empty());
    assert(texts(seen@) =~= lowered(texts(out@)));
    while i < list.len()
        invariant
            i <= list@.len(),
            texts(out@) == distinct(texts(list@), i as int),
            texts(seen@) == lowered(texts(out@)),
        decreases list@.len() - i,
    {
        let low: String = list[i].to_lowercase();
        if !listed(&seen, low.as_str()) {
            let p: String = list[i].clone();
            proof {
                crate::text::lemma_texts_push(seen@, low);
                crate::text::lemma_texts_push(out@, p);
                lemma_lowered_push(texts(out@), p@);
            }
            seen.push(low);
            out.push(p);
        }
        i += 1;
    }
    out
}

fn glob_step(roots: &Vec<String>, seg: &str, force: bool, world: &World) -> (out: Vec<String>)
    ensures
        texts(out@) == steps(texts(roots@), roots@.len() as int, seg@, force, *world),
{
    let wild: bool = has_char(seg, '*') || has_char(seg, '?');
    let mut next: Vec<String> = Vec::new();
    let mut i: usize = 0;
    assert(texts(next@) =~= Seq::empty());
    while i < roots.len()
        invariant
            i <= roots@.len(),
            wild == is_wild(seg@),
            texts(next@) == steps(texts(roots@), i as int, seg@, force, *world),
        decreases roots@.len() - i,
    {
        let ghost before = texts(next@);
        if wild {
            let mut found: Vec<String> = list_matching_dirs(
                roots[i].as_str(),
                seg,
                force,
                world,
            );
            let ghost f = texts(found@);
            next.append(&mut found);
            assert(texts(next@) =~= before + f);
        } else {
            let p: String = join_path(roots[i].as_str(), seg);
            if world.is_container(p.as_str()) {
                next.push(p);
                assert(texts(next@) =~= before + seq![p@]);
            } else {
                assert(before =~= before + Seq::empty());
            }
        }
        i += 1;
    }
    next
}

/// The directories that a pattern stands for, each once. A pattern without `*` and `?`
/// stands for itself where it leads to a directory.
pub fn expand_glob_dirs(pattern: &str, force: bool, world: &World) -> (out: Vec<String>)
    ensures
        texts(out@) == glob_dirs(pattern@, force, *world),
{
    let full: String = expand_env_path(pattern, &world.env);
    if !has_char(full.as_str(), '*') && !has_char(strip_prefix(full.as_str()).as_str(), '?') {
        let mut out: Vec<String> = Vec::new();
        if world.is_container(full.as_str()) {
            out.push(full);
            assert(texts(out@) =~= seq![full@]);
        } else {
            assert(texts(out@) =~= Seq::empty());
        }
        return out;
    }
    let segs: Vec<String> = drop_empty(split(full.as_str(), '\\', '/'));
    if segs.len() == 0 {
        let none: Vec<String> = Vec::new();
        assert(texts(none@) =~= Seq::empty());
        return none;
    }
    let mut roots: Vec<String> = Vec::new();
    let mut i: usize = 0;
    if ends_with(segs[0].as_str(), ":") {
        let mut r: String = segs[0].clone();
        r.append("\\");
        roots.push(r);
        i = 1;
        assert(texts(roots@) =~= seq![segs@[0]@ + "\\"@]);
    } else {
        roots.push("\\".to_owned());
        assert(texts(roots@) =~= seq!["\\"@]);
    }
    while i < segs.len()
        invariant
            i <= segs@.len(),
            walk(texts(roots@), texts(segs@), i as int, force, *world) == glob_dirs(
                pattern@,
                force,
                *world,
            ),
        decreases segs@.len() - i,
    {
        let next: Vec<String> = glob_step(&roots, segs[i].as_str(), force, world);
        roots = unique(next);
        i += 1;
    }
    roots
}

/// No directory is named twice, whatever the case of its letters.
pub proof fn law_distinct(list: Seq<Seq<char>>, n: int)
    requires
        0 <= n <= list.len(),
    ensures
        lowered(distinct(list, n)).no_duplicates(),
        forall|i: int|
            0 <= i < n ==> lowered(distinct(list, n)).contains(lowercase(#[trigger] list[i])),
    decreases n,
{
    if n > 0 {
        law_distinct(list, n - 1);
        let before = distinct(list, n - 1);
        lemma_lowered_push(before, list[n - 1]);
        assert forall|i: int| 0 <= i < n implies lowered(distinct(list, n)).contains(
            lowercase(#[trigger] list[i]),
        ) by {
            if i < n - 1 {
                assert(lowered(before).contains(lowercase(list[i])));
                let k = choose|k: int|
                    0 <= k < lowered(before).len() && lowered(before)[k] == lowercase(list[i]);
                assert(lowered(distinct(list, n))[k] == lowercase(list[i]));
            } else if !lowered(before).contains(lowercase(list[n - 1])) {
                assert(lowered(distinct(list, n))[before.len() as int] == lowercase(list[n - 1]));
            }
        }
    }
}

} // verus!
