//! What holds at the limits of the rules: of what is missing, blank, too long or unknown.

use crate::commands::aidesc::is_fresh;
use crate::commands::cleanup::{ingested, with_plan, Scanned};
use crate::commands::contextmenu::{id_for, last_value_line, looks_like_value, text_or_empty};
use crate::commands::diskbench::{chosen_options, picked};
use crate::commands::finder::{age_keys, in_older_half, start_refusal, ScanKind, SnapV};
use crate::commands::fonts::{plain_list, SystemFonts};
use crate::commands::memory::whole_in;
use crate::commands::netcheck::check_found;
use crate::json::{member, text_member, JsonV};
use crate::laws::count::count;
use crate::laws::object::lemma_member_at;
use crate::order::{law_ranked, ranked};
use crate::perf::{adapter_text, physical, row_texts, Baseline, IfRow};
use crate::rulepath::{name_char, next_percent, reference_at, Env};
use crate::text::{behind, dec, trimmed};
use crate::value::{bool_member, finite_of};
use vstd::prelude::*;

verus! {

// ------------------------------------------------------------------------------ adapters

/// Whether a row is of an adapter that is told of: a physical one of which there was a frame
/// before.
pub open spec fn told(prev: Baseline, rows: Seq<IfRow>) -> spec_fn(int) -> bool {
    |i: int| physical(rows[i]) && prev.contains_key(rows[i].index)
}

/// A frame tells of exactly the physical adapters that were there in the frame before, each
/// held against its own row of it; of no other adapter a rate is told.
pub proof fn law_adapters_of_frame(prev: Baseline, rows: Seq<IfRow>, now: u64, n: int, i: int)
    requires
        0 <= n <= rows.len(),
    ensures
        row_texts(prev, rows, now, n).len() == count(n, told(prev, rows)),
        0 <= i < n && physical(rows[i]) && prev.contains_key(rows[i].index) ==> row_texts(
            prev,
            rows,
            now,
            n,
        ).contains(adapter_text(rows[i], prev[rows[i].index], now)),
    decreases n,
{
    if n > 0 {
        law_adapters_of_frame(prev, rows, now, n - 1, i);
        let before = row_texts(prev, rows, now, n - 1);
        let all = row_texts(prev, rows, now, n);
        if 0 <= i < n && physical(rows[i]) && prev.contains_key(rows[i].index) {
            let t = adapter_text(rows[i], prev[rows[i].index], now);
            if i == n - 1 {
                assert(all.last() == t);
            } else {
                let j = choose|j: int| 0 <= j < before.len() && before[j] == t;
                assert(all[j] == t);
            }
        }
    }
}

/// An adapter counts as physical where it is up, is one of a cable or without one, is of
/// hardware and is no filter on another.
pub proof fn law_physical(r: IfRow)
    ensures
        physical(r) <==> r.oper_status == 1 && (r.if_type == 6 || r.if_type == 71) && (r.flags % 4
            == 1),
{
}

// -------------------------------------------------------------------------------- search

/// Exactly the older half of what was found is in the older half: the first half of the
/// order by age, and nothing of the second.
pub proof fn law_older_half(list: Seq<SnapV>, k: int)
    requires
        list.len() <= usize::MAX,
        0 <= k < list.len(),
    ensures
        ({
            let n = list.len() as int;
            let i = ranked(age_keys(list), n)[k] as int;
            in_older_half(list, i) <==> k < n / 2
        }),
{
    let n = list.len() as int;
    let keys = age_keys(list);
    law_ranked(keys, n);
    let r = ranked(keys, n);
    let i = r[k] as int;
    if k < n / 2 {
        assert(r[k] == i);
    } else if in_older_half(list, i) {
        let j = choose|j: int| 0 <= j < n / 2 && #[trigger] ranked(keys, n)[j] == i;
        assert(r[j] == r[k]);
        assert(j != k);
    }
}

/// Why a search for duplicates does not start says whether directories were asked for.
pub proof fn law_start_refused(asked: nat)
    ensures
        start_refusal(ScanKind::Duplicates, 0, 0) == Some(
            "默认扫描目录均不存在（Downloads/Desktop/Documents/Pictures），请在「扫描目录」中手动填写"@,
        ),
        asked > 0 ==> start_refusal(ScanKind::Duplicates, asked, 0) == Some(
            "指定的扫描目录均不存在，请检查路径"@,
        ),
        start_refusal(ScanKind::BigFiles, 0, 0) == Some("至少需要一个扫描目录"@),
{
}

// --------------------------------------------------------------------------------- rules

/// The name of a variable is made of letters, digits and underscores.
pub proof fn law_name_chars(c: char)
    ensures
        name_char(c)
            <==> "0123456789abcdefghijklmnopqrstuvwxyzABCDEFGHIJKLMNOPQRSTUVWXYZ_"@.contains(c),
{
    reveal_strlit("0123456789abcdefghijklmnopqrstuvwxyzABCDEFGHIJKLMNOPQRSTUVWXYZ_");
    let all = "0123456789abcdefghijklmnopqrstuvwxyzABCDEFGHIJKLMNOPQRSTUVWXYZ_"@;
    assert(all.len() == 63);
    if '0' <= c && c <= '9' {
        assert(all[c as int - 48] == c);
    } else if 'a' <= c && c <= 'z' {
        assert(all[c as int - 87] == c);
    } else if 'A' <= c && c <= 'Z' {
        assert(all[c as int - 29] == c);
    } else if c == '_' {
        assert(all[62] == c);
    } else if all.contains(c) {
        let i = choose|i: int| 0 <= i < all.len() && all[i] == c;
        assert(all[i] == c);
    }
}

/// A variable that is not set, or is set to nothing, is no variable in a path.
pub proof fn law_empty_variable(s: Seq<char>, i: int, j: int, env: Env)
    requires
        next_percent(s, i + 1) == Some(j),
    ensures
        env.value(s.subrange(i + 1, j)) is None ==> reference_at(s, i, env) is None,
        env.value(s.subrange(i + 1, j)) matches Some(v) ==> (v.len() == 0 ==> reference_at(
            s,
            i,
            env,
        ) is None),
        j == i + 1 ==> reference_at(s, i, env) is None,
        env.value(s.subrange(i + 1, j)) matches Some(v) ==> (v.len() > 0 && j != i + 1
            ==> reference_at(s, i, env) == Some((v, j + 1))),
{
}

// ---------------------------------------------------------------------------------- menu

/// A line may be a value where it begins with a brace or a bracket, and the last such line
/// counts.
pub proof fn law_value_lines(list: Seq<Seq<char>>, n: int, k: int)
    requires
        0 <= k < n <= list.len(),
        looks_like_value(list[k]),
        forall|j: int| k < j < n ==> !looks_like_value(#[trigger] list[j]),
    ensures
        last_value_line(list, n) == Some(trimmed(list[k])),
        forall|t: Seq<char>| #[trigger]
            looks_like_value(t) <==> trimmed(t).len() > 0 && (trimmed(t)[0] == '{' || trimmed(t)[0]
                == '['),
    decreases n,
{
    if n - 1 > k {
        assert(!looks_like_value(list[n - 1]));
        law_value_lines(list, n - 1, k);
    }
}

/// An item without a name goes by where it stands and what it leads to, by where it stands
/// alone, or by its place in the list.
pub proof fn law_id_for(it: JsonV, index: nat)
    ensures
        ({
            let target = text_or_empty(it, "target"@);
            let reg = text_or_empty(it, "regPath"@);
            &&& reg.len() == 0 ==> id_for(it, index) == dec(index)
            &&& reg.len() > 0 && target.len() == 0 ==> id_for(it, index) == reg
            &&& reg.len() > 0 && target.len() > 0 ==> id_for(it, index) == reg + "|"@ + target
        }),
{
}

// ------------------------------------------------------------------------------- scanning

/// A planned file whose id or path is too long is not taken in, nor is any past a million.
pub proof fn law_long_plans(a: Scanned, pf: JsonV, line: Seq<char>)
    ensures
        text_member(pf, "id"@) matches Some(t) ==> (t.len() > 160 ==> with_plan(a, pf) == a),
        text_member(pf, "path"@) matches Some(t) ==> (t.len() > 2000 ==> with_plan(a, pf) == a),
        text_member(pf, "id"@) is None || text_member(pf, "path"@) is None ==> with_plan(a, pf) == a,
        behind(line, "@@PLANFILE@@"@) is Some && a.rows.len() >= 1_000_000 ==> ingested(a, line) == (
            a,
            None::<JsonV>,
        ),
        with_plan(a, pf).data == a.data,
{
}

/// A description without a moment, or with one that is no number, is never fresh.
pub proof fn law_undated_is_stale(entry: JsonV, now: int, ttl: int)
    requires
        member(entry, "timestamp"@) is None || finite_of(member(entry, "timestamp"@)) is None,
    ensures
        !is_fresh(entry, now, ttl),
{
}

/// Why a check of the network told nothing is what it said of it, else that it said nothing.
pub proof fn law_silent_check(o: crate::commands::contextmenu::PsOutput)
    requires
        trimmed(o.stdout@).len() == 0,
    ensures
        trimmed(o.stderr@).len() > 0 ==> check_found(o) == Err::<JsonV, Seq<char>>(
            trimmed(o.stderr@),
        ),
        trimmed(o.stderr@).len() == 0 ==> check_found(o) == Err::<JsonV, Seq<char>>(
            "网络检测无输出"@,
        ),
{
}

/// What is chosen for a measurement is one of three numbers each; any other number stands
/// for the usual one.
pub proof fn law_chosen_of_three(opts: JsonV, v: JsonV, n: int)
    requires
        whole_in(v) == Some(n),
    ensures
        member(opts, "blockSize"@) == Some(v) ==> chosen_options(opts).block == (if n == 4096 || n
            == 65536 || n == 1048576 {
            n
        } else {
            1048576
        }),
        member(opts, "queueDepth"@) == Some(v) ==> chosen_options(opts).depth == (if n == 1 || n == 8
            || n == 32 {
            n
        } else {
            1
        }),
        member(opts, "threads"@) == Some(v) ==> chosen_options(opts).threads == (if n == 1 || n == 4
            || n == 8 {
            n
        } else {
            1
        }),
        member(opts, "duration"@) == Some(v) ==> chosen_options(opts).seconds == (if n == 4 || n == 8
            || n == 16 {
            n
        } else {
            8
        }),
        forall|a: int, b: int, c: int, other: int| #[trigger]
            picked(Some(v), a, b, c, other) == n || picked(Some(v), a, b, c, other) == other,
{
}

/// Each of the fonts of the system is told as there exactly where it is; only the one that
/// comes along is told as such, and none of them as brought.
pub proof fn law_plain_fonts(a: SystemFonts, i: int)
    requires
        0 <= i < 6,
    ensures
        plain_list(a).len() == 6,
        bool_member(plain_list(a)[0], "available"@) == Some(a.yahei),
        bool_member(plain_list(a)[1], "available"@) == Some(a.simhei),
        bool_member(plain_list(a)[2], "available"@) == Some(a.simsun),
        bool_member(plain_list(a)[3], "available"@) == Some(a.simkai),
        bool_member(plain_list(a)[4], "available"@) == Some(a.times),
        bool_member(plain_list(a)[5], "available"@) == Some(true),
        bool_member(plain_list(a)[i], "builtin"@) == Some(i == 5),
        bool_member(plain_list(a)[i], "imported"@) == Some(false),
{
    reveal_strlit("family");
    reveal_strlit("cssStack");
    reveal_strlit("available");
    reveal_strlit("builtin");
    reveal_strlit("imported");
    assert("family"@.len() == 6 && "cssStack"@.len() == 8 && "available"@.len() == 9
        && "builtin"@.len() == 7 && "imported"@.len() == 8);
    assert("cssStack"@[0] != "imported"@[0]);
    lemma_member_at(plain_list(a)[0]->Obj_0, 2);
    lemma_member_at(plain_list(a)[1]->Obj_0, 2);
    lemma_member_at(plain_list(a)[2]->Obj_0, 2);
    lemma_member_at(plain_list(a)[3]->Obj_0, 2);
    lemma_member_at(plain_list(a)[4]->Obj_0, 2);
    lemma_member_at(plain_list(a)[5]->Obj_0, 2);
    lemma_member_at(plain_list(a)[i]->Obj_0, 3);
    lemma_member_at(plain_list(a)[i]->Obj_0, 4);
}

} // verus!
