//! Patterns, expressions, protected paths, and the empty directories of roots.

use crate::empty::{dir_items, file_items, ignored, is_ignored, root_dirs, root_files, Walk};
use crate::events::item_event;
use crate::glob::{glob_dirs, is_pattern, is_wild, joined_path, selected, selected_paths, step, steps};
use crate::laws::text::{lemma_stands_last, lemma_stands_on, stands};
use crate::laws::tree::{
    added_to, bare_tree, dir_right, dir_there, inside_of, law_empty_dir_is_kept,
};
use crate::protect::{
    counted, default_roots, drive_only, folded, normal_path, outcome_event, outcome_text,
    protected_norm, refusal, root_form, short_name, Roots, Tally, Target, Trash,
};
use crate::rulepath::{
    expanded, expanded_rest, literal_rest, name_char, name_end, next_percent, operand_at,
    reference_at, rule_path, skip_spaces, sum_rest, Env,
};
use crate::text::{dec, lowercase};
use crate::wildcard::{name_matches, wild};
use crate::world::{Entry, Kind, World};
use vstd::prelude::*;

verus! {

// ---------------------------------------------------------------------------- patterns

proof fn lemma_wild_plain(n: Seq<char>, i: int, p: Seq<char>, j: int)
    requires
        0 <= i <= n.len(),
        0 <= j <= p.len(),
        forall|k: int| j <= k < p.len() ==> p[k] != '*' && p[k] != '?',
    ensures
        wild(n, i, p, j) <==> n.skip(i) == p.skip(j),
    decreases p.len() - j,
{
    if j < p.len() {
        if i < n.len() {
            lemma_wild_plain(n, i + 1, p, j + 1);
            if n.skip(i) == p.skip(j) {
                assert(n.skip(i)[0] == p.skip(j)[0]);
                assert(n.skip(i + 1) =~= n.skip(i).skip(1));
                assert(p.skip(j + 1) =~= p.skip(j).skip(1));
            }
            if n[i] == p[j] && n.skip(i + 1) == p.skip(j + 1) {
                let a = n.skip(i + 1);
                let b = p.skip(j + 1);
                assert(a.len() == b.len());
                assert forall|k: int| 0 <= k < n.len() - i implies n.skip(i)[k] == p.skip(j)[k] by {
                    if k > 0 {
                        assert(a[k - 1] == n[i + k]);
                        assert(b[k - 1] == p[j + k]);
                    }
                }
                assert(n.skip(i) =~= p.skip(j));
            }
        } else {
            assert(n.skip(i).len() == 0 && p.skip(j).len() > 0);
        }
    } else {
        if i == n.len() {
            assert(n.skip(i) =~= p.skip(j));
        } else {
            assert(n.skip(i).len() > 0 && p.skip(j).len() == 0);
        }
    }
}

proof fn lemma_wild_star(n: Seq<char>, i: int, p: Seq<char>)
    requires
        0 <= i <= n.len(),
        p.len() > 0,
        p[0] == '*',
        forall|k: int| 1 <= k < p.len() ==> p[k] != '*' && p[k] != '?',
    ensures
        wild(n, i, p, 0) <==> p.skip(1).len() <= n.len() - i && n.skip(n.len() - p.len() + 1)
            == p.skip(1),
    decreases n.len() - i,
{
    lemma_wild_plain(n, i, p, 1);
    if i < n.len() {
        lemma_wild_star(n, i + 1, p);
    }
    if n.skip(i) == p.skip(1) {
        assert(n.len() - i == p.len() - 1);
    }
    if n.len() - i == p.len() - 1 {
        assert(n.len() - p.len() + 1 == i);
    }
}

/// A pattern of one star and a text behind it matches exactly what ends with the text.
pub proof fn law_star_before(n: Seq<char>, tail: Seq<char>)
    requires
        !tail.contains('*'),
        !tail.contains('?'),
    ensures
        wild(n, 0, seq!['*'] + tail, 0) <==> tail.is_suffix_of(n),
{
    let p = seq!['*'] + tail;
    assert(p.skip(1) =~= tail);
    assert forall|k: int| 1 <= k < p.len() implies p[k] != '*' && p[k] != '?' by {
        assert(tail.contains(tail[k - 1]));
    }
    lemma_wild_star(n, 0, p);
    if tail.len() <= n.len() {
        assert(n.subrange(n.len() - tail.len(), n.len() as int) =~= n.skip(n.len() - tail.len()));
    }
}

/// A question mark stands for one character, whatever it is.
pub proof fn law_question_mark(n: Seq<char>, p: Seq<char>)
    ensures
        p.len() > 0 && p[0] == '?' ==> wild(n, 0, p, 0) == (n.len() > 0 && wild(n, 1, p, 1)),
        wild(n, 0, seq!['?'], 0) <==> n.len() == 1,
{
    reveal_with_fuel(wild, 3);
    let q = seq!['?'];
    assert(q.len() == 1 && q[0] == '?');
    if n.len() > 0 {
        assert(wild(n, 1, q, 1) <==> 1 == n.len());
    }
}

/// Names are matched without regard to case.
pub proof fn law_case_does_not_matter(a: Seq<char>, b: Seq<char>, p: Seq<char>, q: Seq<char>)
    requires
        lowercase(a) == lowercase(b),
        lowercase(p) == lowercase(q),
    ensures
        name_matches(a, p) == name_matches(b, q),
{
}

/// A segment with a wildcard leads to exactly the directories of the listing that it matches:
/// never to a file or a reparse point, and to a hidden one only where that is asked for.
pub proof fn law_segment(list: Seq<Entry>, n: int, seg: Seq<char>, force: bool, i: int)
    requires
        0 <= i < n <= list.len(),
    ensures
        list[i].kind == Kind::Dir && !list[i].reparse && (force || !list[i].hidden) && name_matches(
            list[i].name@,
            seg,
        ) ==> selected_paths(list, n, seg, force).contains(list[i].path@),
        forall|k: int|
            0 <= k < selected_paths(list, n, seg, force).len() ==> exists|j: int|
                0 <= j < n && (#[trigger] list[j]).kind == Kind::Dir && !list[j].reparse && (force
                    || !list[j].hidden) && name_matches(list[j].name@, seg) && (
                #[trigger] selected_paths(list, n, seg, force)[k]) == list[j].path@,
    decreases n,
{
    let now = selected_paths(list, n, seg, force);
    let before = selected_paths(list, n - 1, seg, force);
    if n > 1 {
        law_segment(
            list,
            n - 1,
            seg,
            force,
            if i < n - 1 {
                i
            } else {
                0
            },
        );
    }
    if i < n - 1 {
        if before.contains(list[i].path@) {
            let k = choose|k: int| 0 <= k < before.len() && before[k] == list[i].path@;
            assert(now[k] == list[i].path@);
        }
    } else if selected(list[i], seg, force) {
        assert(now[before.len() as int] == list[i].path@);
    }
    assert forall|k: int| 0 <= k < now.len() implies exists|j: int|
        0 <= j < n && (#[trigger] list[j]).kind == Kind::Dir && !list[j].reparse && (force
            || !list[j].hidden) && name_matches(list[j].name@, seg) && (#[trigger] now[k])
            == list[j].path@ by {
        if k < before.len() {
            assert(now[k] == before[k]);
            let j = choose|j: int|
                0 <= j < n - 1 && (#[trigger] list[j]).kind == Kind::Dir && !list[j].reparse && (force
                    || !list[j].hidden) && name_matches(list[j].name@, seg) && before[k]
                    == list[j].path@;
            assert(list[j].kind == Kind::Dir);
        } else {
            assert(list[n - 1].kind == Kind::Dir);
        }
    }
}

/// A step of a pattern goes on from every root: to the directory of the name, where it is there,
/// or to those that match.
pub proof fn law_step_from_every_root(
    roots: Seq<Seq<char>>,
    n: int,
    seg: Seq<char>,
    force: bool,
    w: World,
    r: int,
    d: Seq<char>,
)
    requires
        0 <= r < n <= roots.len(),
        step(roots[r], seg, force, w).contains(d),
    ensures
        steps(roots, n, seg, force, w).contains(d),
        !is_wild(seg) ==> d == joined_path(roots[r], seg) && w.has_dir(d),
    decreases n,
{
    let now = steps(roots, n, seg, force, w);
    let a = steps(roots, n - 1, seg, force, w);
    let b = step(roots[n - 1], seg, force, w);
    if r == n - 1 {
        let k = choose|k: int| 0 <= k < b.len() && b[k] == d;
        assert(now[a.len() + k] == d);
    } else {
        law_step_from_every_root(roots, n - 1, seg, force, w, r, d);
        let k = choose|k: int| 0 <= k < a.len() && a[k] == d;
        assert(now[k] == d);
    }
}

/// A path without wildcards stands for itself, where it is a directory.
pub proof fn law_plain_path_is_itself(p: Seq<char>, force: bool, w: World)
    requires
        !p.contains('%'),
        !p.contains('*'),
        !p.contains('?'),
    ensures
        w.has_dir(p) ==> glob_dirs(p, force, w) == seq![p],
        !w.has_dir(p) ==> glob_dirs(p, force, w).len() == 0,
{
    crate::rulepath::law_plain_path_unchanged(p, w.env);
    assert(!is_pattern(p)) by {
        let b = crate::protect::bare(p);
        if b.contains('?') {
            let k = choose|k: int| 0 <= k < b.len() && b[k] == '?';
            reveal_strlit("\\\\?\\UNC\\");
            reveal_strlit("\\\\?\\");
            reveal_strlit("\\\\");
            if "\\\\?\\UNC\\"@.is_prefix_of(p) {
                assert(p.subrange(0, 8)[2] == "\\\\?\\UNC\\"@[2]);
                assert(p[2] == '?');
                assert(p.contains(p[2]));
            } else if "\\\\?\\"@.is_prefix_of(p) {
                assert(p.subrange(0, 4)[2] == "\\\\?\\"@[2]);
                assert(p[2] == '?');
                assert(p.contains(p[2]));
            } else {
                assert(p.contains(p[k]));
            }
        }
    }
}

// ------------------------------------------------------------------------- expressions

proof fn lemma_literal(s: Seq<char>, i: int, t: Seq<char>, k: int)
    requires
        s == seq!['\''] + t + seq!['\''],
        !t.contains('\''),
        0 <= k <= t.len(),
        i == k + 1,
    ensures
        literal_rest(s, i, t.take(k)) == Some((t, s.len() as int)),
    decreases t.len() - k,
{
    if k < t.len() {
        assert(s[i] == t[k]);
        assert(t.contains(t[k]));
        assert(t.take(k).push(t[k]) =~= t.take(k + 1));
        lemma_literal(s, i + 1, t, k + 1);
    } else {
        assert(s[i] == '\'');
        assert(t.take(k) =~= t);
    }
}

/// A quoted text stands for itself.
pub proof fn law_literal(t: Seq<char>, env: Env)
    requires
        !t.contains('\''),
    ensures
        rule_path(seq!['\''] + t + seq!['\''], env) == Some(t),
{
    let s = seq!['\''] + t + seq!['\''];
    assert(s[0] == '\'');
    lemma_literal(s, 1, t, 0);
    assert(t.take(0) =~= Seq::empty());
    assert(skip_spaces(s, 0) == 0);
    assert(skip_spaces(s, s.len() as int) == s.len());
    assert(operand_at(s, 0, 0, env) == Some((t, s.len() as int, 1nat)));
    assert(sum_rest(s, s.len() as int, 1, env, t) == Some((t, s.len() as int, 1nat)));
}

proof fn lemma_name_end(s: Seq<char>, i: int)
    requires
        0 <= i <= s.len(),
        forall|k: int| i <= k < s.len() ==> name_char(s[k]),
    ensures
        name_end(s, i) == s.len(),
    decreases s.len() - i,
{
    if i < s.len() {
        lemma_name_end(s, i + 1);
    }
}

/// A variable stands for its value, and for nothing where it is not set.
pub proof fn law_variable(name: Seq<char>, env: Env)
    requires
        name.len() > 0,
        forall|k: int| 0 <= k < name.len() ==> name_char(#[trigger] name[k]),
    ensures
        env.value(name) is Some ==> rule_path("$env:"@ + name, env) == env.value(name),
        env.value(name) is None ==> rule_path("$env:"@ + name, env) == Some(Seq::<char>::empty()),
{
    reveal_strlit("$env:");
    let s = "$env:"@ + name;
    assert(s[0] == '$');
    assert(skip_spaces(s, 0) == 0);
    assert(s.subrange(0, 5) =~= "$env:"@);
    assert(crate::text::occurs_at(s, "$env:"@, 0));
    assert forall|k: int| 5 <= k < s.len() implies name_char(s[k]) by {
        assert(s[k] == name[k - 5]);
    }
    lemma_name_end(s, 5);
    assert(s.subrange(5, s.len() as int) =~= name);
    assert(skip_spaces(s, s.len() as int) == s.len());
    let v = match env.value(name) {
        Some(v) => v,
        None => Seq::empty(),
    };
    assert(operand_at(s, 0, 0, env) == Some((v, s.len() as int, 1nat)));
    assert(sum_rest(s, s.len() as int, 1, env, v) == Some((v, s.len() as int, 1nat)));
}

proof fn lemma_next_percent(s: Seq<char>, i: int, at: int)
    requires
        0 <= i <= at < s.len(),
        s[at] == '%',
        forall|k: int| i <= k < at ==> s[k] != '%',
    ensures
        next_percent(s, i) == Some(at),
    decreases at - i,
{
    if i < at {
        lemma_next_percent(s, i + 1, at);
    }
}

/// A reference to a variable that is set and not empty is replaced by its value; one to a
/// variable that is not set stays.
pub proof fn law_reference(name: Seq<char>, env: Env)
    requires
        name.len() > 0,
        !name.contains('%'),
    ensures
        env.value(name) matches Some(v) && v.len() > 0 ==> expanded(
            seq!['%'] + name + seq!['%'],
            env,
        ) == env.value(name)->0,
        env.value(name) is None ==> reference_at(seq!['%'] + name + seq!['%'], 0, env) is None,
{
    let s = seq!['%'] + name + seq!['%'];
    let at = name.len() as int + 1;
    assert forall|k: int| 1 <= k < at implies s[k] != '%' by {
        assert(s[k] == name[k - 1]);
        assert(name.contains(name[k - 1]));
    }
    assert(s[at] == '%');
    lemma_next_percent(s, 1, at);
    assert(s.subrange(1, at) =~= name);
    if env.value(name) is Some && env.value(name)->0.len() > 0 {
        let v = env.value(name)->0;
        assert(reference_at(s, 0, env) == Some((v, at + 1)));
        assert(expanded_rest(s, 0, env, Seq::empty()) == expanded_rest(
            s,
            at + 1,
            env,
            Seq::<char>::empty() + v,
        ));
        assert(Seq::<char>::empty() + v =~= v);
        assert(expanded_rest(s, at + 1, env, v) == v);
    }
}

// --------------------------------------------------------------------- protected paths

/// A path that is no drive, is not shortened, lies in no protected subtree, leads to no
/// directory that must stay, and lies in none that is protected on every drive, may be deleted.
pub proof fn law_free_path(norm: Seq<char>, r: Roots)
    requires
        norm.len() > 0,
        !drive_only(norm),
        !short_name(norm),
        forall|i: int|
            0 <= i < r.subtree.len() ==> norm != #[trigger] r.subtree[i] && !(r.subtree[i]
                + "\\"@).is_prefix_of(norm),
        forall|i: int|
            0 <= i < r.exact.len() ==> norm != #[trigger] r.exact[i] && !(norm
                + "\\"@).is_prefix_of(r.exact[i]),
        r.any_drive.len() == 0,
    ensures
        !protected_norm(norm, r),
{
}

/// A step into a directory and back comes to nothing, and so does a step to the directory itself.
pub proof fn law_dots_fold_away(list: Seq<Seq<char>>, n: int)
    requires
        2 <= n <= list.len(),
        list[n - 2].len() > 0,
        list[n - 2] != "."@,
        list[n - 2] != ".."@,
    ensures
        list[n - 1] == ".."@ ==> folded(list, n) == folded(list, n - 2),
        list[n - 1] == "."@ ==> folded(list, n) == folded(list, n - 1),
        list[n - 1].len() == 0 ==> folded(list, n) == folded(list, n - 1),
        folded(list, n - 1) == folded(list, n - 2).push(list[n - 2]),
{
    reveal_strlit(".");
    reveal_strlit("..");
    let before = folded(list, n - 2);
    assert(folded(list, n - 1) == before.push(list[n - 2]));
    assert(before.push(list[n - 2]).drop_last() =~= before);
}

/// By default the directories of the system, of programs and of the user stay, and what this
/// program and the system keep for themselves stays with all that is in it.
pub proof fn law_default_roots(env: Env)
    ensures
        ({
            let r = default_roots(env);
            let drive = crate::protect::system_drive(env);
            let home = crate::protect::value_or(env, "USERPROFILE"@, drive + "\\Users"@);
            let appdata = crate::protect::value_or(env, "APPDATA"@, home + "\\AppData\\Roaming"@);
            let windir = crate::protect::value_or(env, "WINDIR"@, drive + "\\Windows"@);
            &&& r.exact.contains(root_form(drive + "\\Windows"@))
            &&& r.exact.contains(root_form(home))
            &&& r.exact.contains(root_form(home + "\\Desktop"@))
            &&& r.exact.contains(root_form(home + "\\Documents"@))
            &&& r.exact.contains(root_form(home + "\\Downloads"@))
            &&& r.exact.contains(root_form(appdata))
            &&& r.exact.len() == 10
            &&& r.subtree.contains(root_form(appdata + "\\Trim"@))
            &&& r.subtree.contains(root_form(windir + "\\System32\\config"@))
            &&& r.any_drive.contains("system volume information"@)
        }),
{
    let r = default_roots(env);
    assert(r.exact.contains(r.exact[0]));
    assert(r.exact.contains(r.exact[4]));
    assert(r.exact.contains(r.exact[5]));
    assert(r.exact.contains(r.exact[6]));
    assert(r.exact.contains(r.exact[7]));
    assert(r.exact.contains(r.exact[8]));
    assert(r.subtree.contains(r.subtree[0]));
    assert(r.subtree.contains(r.subtree[1]));
    assert(r.any_drive.contains(r.any_drive[0]));
}

/// A deletion is refused exactly where the name cannot be read, the path is protected, or the
/// target is a link; else it is done where it was moved to the recycle bin.
pub proof fn law_deletion(n: Tally, t: Target, r: Roots, o: Trash)
    requires
        n.ok < u64::MAX,
        n.fail < u64::MAX,
        n.freed + t.size <= u64::MAX,
    ensures
        refusal(t, r) is Some <==> !t.exact_name || t.reparse || protected_norm(
            normal_path(crate::deletable::long_path(t.path@, t.long)),
            r,
        ),
        refusal(t, r) is None && o is Moved ==> counted(n, t, r, o) == (Tally {
            ok: (n.ok + 1) as u64,
            fail: n.fail,
            freed: (n.freed + t.size) as u64,
        }),
        refusal(t, r) is Some || !(o is Moved) ==> counted(n, t, r, o) == (Tally {
            ok: n.ok,
            fail: (n.fail + 1) as u64,
            freed: n.freed,
        }),
{
}

/// What is told of a deletion: that it is done, with what it has freed, only where it was moved
/// to the recycle bin; else that it has failed, and nothing freed.
pub proof fn law_deletion_is_told(t: Target, r: Roots, o: Trash)
    ensures
        ({
            let line = outcome_event(t, r, o)->line;
            &&& outcome_event(t, r, o) is Item
            &&& refusal(t, r) is None && o is Moved ==> stands(
                line,
                "\",\"status\":\""@ + "ok"@ + "\",\"freed\":"@,
            ) && stands(line, "\",\"freed\":"@ + dec(t.size as nat) + ",\"mode\":\""@)
            &&& refusal(t, r) is Some || !(o is Moved) ==> stands(
                line,
                "\",\"status\":\""@ + "fail"@ + "\",\"freed\":"@,
            ) && stands(line, "\",\"freed\":"@ + dec(0) + ",\"mode\":\""@)
        }),
{
    let (status, freed, message, mode) = match refusal(t, r) {
        Some((message, mode)) => ("fail"@, 0nat, message, mode),
        None => match o {
            Trash::Moved => ("ok"@, t.size as nat, "已移入回收站"@, "recycled"@),
            _ => ("fail"@, 0nat, crate::protect::trash_reason(o), "trash-failed"@),
        },
    };
    let line = outcome_text(t, status, freed, message, mode);
    assert(outcome_event(t, r, o)->line == line);
    lemma_stands_on();
    let a = "@@ITEM@@{\"type\":\"delresult\",\"path\":\""@ + crate::json::escaped(
        crate::events::shown(t.path@),
    ) + "\",\"kind\":\""@ + t.kind@;
    lemma_stands_last(a, "\",\"status\":\""@, status, "\",\"freed\":"@);
    lemma_stands_last(
        a + "\",\"status\":\""@ + status,
        "\",\"freed\":"@,
        dec(freed),
        ",\"mode\":\""@,
    );
}

// ------------------------------------------------------------------------- empty roots

/// Whether a file that is kept is an empty file directly in the first `n` entries.
pub open spec fn empty_at(list: Seq<Entry>, n: int, p: Seq<char>) -> bool {
    exists|i: int|
        0 <= i < n && (#[trigger] list[i]).kind == Kind::File && list[i].size == 0 && list[i].path@ == p
}

/// Of a root itself exactly its own empty files are kept, as long as there is room.
pub proof fn law_root_files(w: Walk, list: Seq<Entry>, n: int, i: int)
    requires
        0 <= n <= list.len(),
    ensures
        ({
            let now = root_files(w, list, n);
            &&& added_to(w.kept.files, now.kept.files)
            &&& now.kept.dirs == w.kept.dirs
            &&& w.kept.truncated ==> now.kept.truncated
            &&& forall|k: int|
                w.kept.files.len() <= k < now.kept.files.len() ==> empty_at(
                    list,
                    n,
                    #[trigger] now.kept.files[k],
                )
            &&& 0 <= i < n && list[i].kind == Kind::File && list[i].size == 0 && !now.kept.truncated
                ==> now.kept.files.contains(list[i].path@)
        }),
    decreases n,
{
    if n > 0 {
        law_root_files(w, list, n - 1, i);
        let mid = root_files(w, list, n - 1);
        let now = root_files(w, list, n);
        let e = list[n - 1];
        assert forall|k: int| w.kept.files.len() <= k < now.kept.files.len() implies empty_at(
            list,
            n,
            #[trigger] now.kept.files[k],
        ) by {
            if k < mid.kept.files.len() {
                assert(now.kept.files[k] == mid.kept.files[k]);
                let j = choose|j: int|
                    0 <= j < n - 1 && (#[trigger] list[j]).kind == Kind::File && list[j].size == 0
                        && list[j].path@ == mid.kept.files[k];
                assert(list[j].kind == Kind::File);
            } else {
                assert(list[n - 1].kind == Kind::File);
            }
        }
        if 0 <= i < n && list[i].kind == Kind::File && list[i].size == 0 && !now.kept.truncated {
            if i < n - 1 {
                let k = choose|k: int|
                    0 <= k < mid.kept.files.len() && mid.kept.files[k] == list[i].path@;
                assert(now.kept.files[k] == list[i].path@);
            } else {
                assert(now.kept.files[mid.kept.files.len() as int] == list[i].path@);
            }
        }
    }
}

/// Whether a directory that is kept is the empty tree of one of the first `n` entries, or lies
/// empty in one.
pub open spec fn bare_at(list: Seq<Entry>, n: int, ignore: Set<Seq<char>>, p: Seq<char>) -> bool {
    exists|i: int|
        0 <= i < n && (#[trigger] list[i]).kind == Kind::Dir && !list[i].reparse && ((list[i].path@
            == p && bare_tree(list[i], ignore)) || dir_there(
            inside_of(list[i]),
            inside_of(list[i]).len() as int,
            ignore,
            p,
        ))
}

/// Of the directories of a root only those are kept whose tree consists of directories alone,
/// and every such one that is not passed over is, as long as there is room.
pub proof fn law_root_dirs(w: Walk, list: Seq<Entry>, n: int, ignore: Set<Seq<char>>, i: int)
    requires
        0 <= n <= list.len(),
    ensures
        ({
            let now = root_dirs(w, list, n, ignore);
            &&& added_to(w.kept.files, now.kept.files)
            &&& added_to(w.kept.dirs, now.kept.dirs)
            &&& w.kept.truncated ==> now.kept.truncated
            &&& forall|k: int|
                w.kept.dirs.len() <= k < now.kept.dirs.len() ==> bare_at(
                    list,
                    n,
                    ignore,
                    #[trigger] now.kept.dirs[k],
                )
            &&& 0 <= i < n && list[i].kind == Kind::Dir && !list[i].reparse && bare_tree(
                list[i],
                ignore,
            ) && !is_ignored(list[i].path@, ignore) && !now.kept.truncated ==> now.kept.dirs.contains(
                list[i].path@,
            )
        }),
    decreases n,
{
    if n > 0 {
        law_root_dirs(w, list, n - 1, ignore, i);
        let mid = root_dirs(w, list, n - 1, ignore);
        let now = root_dirs(w, list, n, ignore);
        let e = list[n - 1];
        if e.kind == Kind::Dir && !e.reparse && !is_ignored(e.path@, ignore) {
            law_empty_dir_is_kept(mid, e, ignore);
            assert(dir_right(mid, now, e, ignore));
        }
        assert forall|k: int| w.kept.dirs.len() <= k < now.kept.dirs.len() implies bare_at(
            list,
            n,
            ignore,
            #[trigger] now.kept.dirs[k],
        ) by {
            if k < mid.kept.dirs.len() {
                assert(now.kept.dirs[k] == mid.kept.dirs[k]);
                assert(bare_at(list, n - 1, ignore, mid.kept.dirs[k]));
            } else {
                assert(list[n - 1].kind == Kind::Dir);
            }
        }
        if 0 <= i < n - 1 && mid.kept.dirs.contains(list[i].path@) {
            let k = choose|k: int| 0 <= k < mid.kept.dirs.len() && mid.kept.dirs[k] == list[i].path@;
            assert(now.kept.dirs[k] == list[i].path@);
        }
    }
}

/// A list of directories to leave alone holds each of its lines that is not blank, in lower
/// case and without the blanks round it.
pub proof fn law_left_alone(lines: Seq<Seq<char>>, n: int, i: int)
    requires
        0 <= i < n <= lines.len(),
        crate::text::trimmed(lines[i]).len() > 0,
    ensures
        ignored(lines, n).contains(lowercase(crate::text::trimmed(lines[i]))),
    decreases n,
{
    if i < n - 1 {
        law_left_alone(lines, n - 1, i);
    }
}

/// Every empty file and every outermost empty directory that was kept is told.
pub proof fn law_empty_is_told(files: Seq<Seq<char>>, dirs: Seq<(Seq<char>, nat)>, i: int)
    ensures
        file_items(files).len() == files.len(),
        dir_items(dirs).len() == dirs.len(),
        0 <= i < files.len() ==> file_items(files)[i] == item_event(
            "emptyfile"@,
            files[i],
            0,
            Seq::empty(),
        ),
        0 <= i < dirs.len() ==> dir_items(dirs)[i] == item_event(
            "emptyfolder"@,
            dirs[i].0,
            0,
            seq![("nested"@, dec(dirs[i].1))],
        ),
{
}

} // verus!
