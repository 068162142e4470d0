//! What is reported is reported in one line each, whatever the names, paths and rules hold.

use crate::cleanup_scan::{
    all_quoted, blocked_by, dir_line, dism_line, field, fields, files_line, item_line, plan_line,
    plan_lines, quoted_or_null, reg_line, rule_report, string_array, target, word, Target,
};
use crate::deletable::rule_found;
use crate::events::{extra_text, extras_text, item_text, shown};
use crate::json::{escaped, law_escaped_is_printable, quoted, text_member, JsonV};
use crate::rulepath::rule_path;
use crate::text::{dec, digit, joined};
use crate::world::World;
use vstd::prelude::*;

verus! {

/// Whether a text holds no line feed.
pub open spec fn one_line(s: Seq<char>) -> bool {
    !s.contains('\n')
}

proof fn lemma_behind(a: Seq<char>, b: Seq<char>)
    requires
        one_line(a),
        one_line(b),
    ensures
        one_line(a + b),
{
    assert forall|i: int| 0 <= i < (a + b).len() implies (a + b)[i] != '\n' by {
        if i < a.len() {
            assert(a.contains(a[i]));
        } else {
            assert(b.contains(b[i - a.len()]));
        }
    }
}

proof fn lemma_decimal(n: nat)
    ensures
        one_line(dec(n)),
    decreases n,
{
    if n < 10 {
        assert(dec(n)[0] == digit(n));
    } else {
        lemma_decimal(n / 10);
        let last = seq![digit(n % 10)];
        assert(last[0] != '\n');
        lemma_behind(dec(n / 10), last);
        assert(dec(n) =~= dec(n / 10) + last);
    }
}

proof fn lemma_joined(list: Seq<Seq<char>>, sep: Seq<char>)
    requires
        one_line(sep),
        forall|i: int| 0 <= i < list.len() ==> one_line(#[trigger] list[i]),
    ensures
        one_line(joined(list, sep)),
    decreases list.len(),
{
    if list.len() > 1 {
        let front = list.drop_last();
        assert forall|i: int| 0 <= i < front.len() implies one_line(#[trigger] front[i]) by {
            assert(front[i] == list[i]);
        }
        lemma_joined(front, sep);
        lemma_behind(joined(front, sep), sep);
        lemma_behind(joined(front, sep) + sep, list.last());
    }
}

// --------------------------------------------------------------- the lines of a search

proof fn lemma_extras(extra: Seq<(Seq<char>, Seq<char>)>, n: int)
    requires
        0 <= n <= extra.len(),
        forall|i: int| 0 <= i < extra.len() ==> one_line((#[trigger] extra[i]).0),
    ensures
        one_line(extras_text(extra, n)),
    decreases n,
{
    if n > 0 {
        lemma_extras(extra, n - 1);
        let (k, v) = extra[n - 1];
        reveal_strlit(",\"");
        reveal_strlit("\":\"");
        reveal_strlit("\"");
        law_escaped_is_printable(v);
        lemma_behind(",\""@, k);
        lemma_behind(",\""@ + k, "\":\""@);
        lemma_behind(",\""@ + k + "\":\""@, escaped(v));
        lemma_behind(",\""@ + k + "\":\""@ + escaped(v), "\""@);
        lemma_behind(extras_text(extra, n - 1), extra_text(k, v));
    }
}

/// An item that a search reports is one line: its only line feed is the one that ends it,
/// whatever its path and its further values hold.
pub proof fn law_item_is_one_line(
    kind: Seq<char>,
    path: Seq<char>,
    size: nat,
    extra: Seq<(Seq<char>, Seq<char>)>,
)
    requires
        one_line(kind),
        forall|i: int| 0 <= i < extra.len() ==> one_line((#[trigger] extra[i]).0),
    ensures
        item_text(kind, path, size, extra).last() == '\n',
        one_line(item_text(kind, path, size, extra).drop_last()),
{
    reveal_strlit("@@ITEM@@{\"type\":\"");
    reveal_strlit("\",\"path\":\"");
    reveal_strlit("\",\"size\":");
    reveal_strlit("}\n");
    reveal_strlit("}");
    law_escaped_is_printable(shown(path));
    lemma_decimal(size);
    lemma_extras(extra, extra.len() as int);
    let a = "@@ITEM@@{\"type\":\""@ + kind;
    lemma_behind("@@ITEM@@{\"type\":\""@, kind);
    let b = a + "\",\"path\":\""@;
    lemma_behind(a, "\",\"path\":\""@);
    let c = b + escaped(shown(path));
    lemma_behind(b, escaped(shown(path)));
    let d = c + "\",\"size\":"@;
    lemma_behind(c, "\",\"size\":"@);
    let e = d + dec(size);
    lemma_behind(d, dec(size));
    let f = e + extras_text(extra, extra.len() as int);
    lemma_behind(e, extras_text(extra, extra.len() as int));
    lemma_behind(f, "}"@);
    assert(item_text(kind, path, size, extra) == f + "}\n"@);
    assert((f + "}\n"@).drop_last() =~= f + "}"@);
}

// -------------------------------------------------------------- the lines of a cleanup

proof fn lemma_item_line(list: Seq<(Seq<char>, Seq<char>)>)
    requires
        forall|i: int| 0 <= i < list.len() ==> one_line((#[trigger] list[i]).1),
    ensures
        one_line(item_line(list)),
{
    reveal_strlit("@@ITEM@@{");
    reveal_strlit(",");
    reveal_strlit(":");
    reveal_strlit("}");
    assert forall|i: int| 0 <= i < fields(list).len() implies one_line(
        #[trigger] fields(list)[i],
    ) by {
        let (k, v) = list[i];
        law_escaped_is_printable(k);
        lemma_behind(quoted(k), ":"@);
        lemma_behind(quoted(k) + ":"@, v);
        assert(fields(list)[i] == field(k, v));
    }
    lemma_joined(fields(list), ","@);
    lemma_behind("@@ITEM@@{"@, joined(fields(list), ","@));
    lemma_behind("@@ITEM@@{"@ + joined(fields(list), ","@), "}"@);
}

proof fn lemma_array(list: Seq<Seq<char>>)
    ensures
        one_line(string_array(list)),
{
    reveal_strlit("[");
    reveal_strlit(",");
    reveal_strlit("]");
    assert forall|i: int| 0 <= i < all_quoted(list).len() implies one_line(
        #[trigger] all_quoted(list)[i],
    ) by {
        law_escaped_is_printable(list[i]);
    }
    lemma_joined(all_quoted(list), ","@);
    lemma_behind("["@, joined(all_quoted(list), ","@));
    lemma_behind("["@ + joined(all_quoted(list), ","@), "]"@);
}

/// Quoted texts, numbers, lists and words are each in one line.
proof fn lemma_values()
    ensures
        forall|t: Seq<char>| one_line(#[trigger] quoted(t)),
        forall|t: Option<Seq<char>>| one_line(#[trigger] quoted_or_null(t)),
        forall|n: nat| one_line(#[trigger] dec(n)),
        forall|list: Seq<Seq<char>>| one_line(#[trigger] string_array(list)),
        forall|b: bool| one_line(#[trigger] word(b)),
        one_line("[]"@),
        one_line("0"@),
        one_line("null"@),
        one_line("true"@),
{
    reveal_strlit("[]");
    reveal_strlit("0");
    reveal_strlit("null");
    reveal_strlit("true");
    reveal_strlit("false");
    assert forall|t: Seq<char>| one_line(#[trigger] quoted(t)) by {
        law_escaped_is_printable(t);
    }
    assert forall|n: nat| one_line(#[trigger] dec(n)) by {
        lemma_decimal(n);
    }
    assert forall|list: Seq<Seq<char>>| one_line(#[trigger] string_array(list)) by {
        lemma_array(list);
    }
}

proof fn lemma_plan_line(id: Seq<char>, path: Seq<char>, size: u64)
    ensures
        one_line(plan_line(id, path, size)),
{
    lemma_values();
    reveal_strlit("@@PLANFILE@@{\"id\":");
    reveal_strlit(",\"path\":");
    reveal_strlit(",\"size\":");
    reveal_strlit("}");
    let a = "@@PLANFILE@@{\"id\":"@ + quoted(id);
    lemma_behind("@@PLANFILE@@{\"id\":"@, quoted(id));
    let b = a + ",\"path\":"@;
    lemma_behind(a, ",\"path\":"@);
    let c = b + quoted(path);
    lemma_behind(b, quoted(path));
    let d = c + ",\"size\":"@;
    lemma_behind(c, ",\"size\":"@);
    let e = d + dec(size as nat);
    lemma_behind(d, dec(size as nat));
    lemma_behind(e, "}"@);
}

/// Lines made of members that are each in one line are in one line.
proof fn lemma_item_lines()
    ensures
        forall|list: Seq<(Seq<char>, Seq<char>)>|
            (forall|i: int| 0 <= i < list.len() ==> one_line((#[trigger] list[i]).1)) ==> one_line(
                #[trigger] item_line(list),
            ),
{
    assert forall|list: Seq<(Seq<char>, Seq<char>)>|
        (forall|i: int| 0 <= i < list.len() ==> one_line((#[trigger] list[i]).1)) implies one_line(
        #[trigger] item_line(list),
    ) by {
        lemma_item_line(list);
    }
}

proof fn lemma_dism_line(id: Seq<char>, rule: JsonV)
    ensures
        one_line(dism_line(id, rule)),
{
    lemma_values();
    lemma_item_lines();
}

proof fn lemma_files_line(
    id: Seq<char>,
    rule: JsonV,
    blocked: Seq<Seq<char>>,
    size: nat,
    count: nat,
    locked: nat,
    truncated: bool,
)
    ensures
        one_line(files_line(id, rule, blocked, size, count, locked, truncated)),
{
    lemma_values();
    lemma_item_lines();
}

proof fn lemma_reg_line(id: Seq<char>, rule: JsonV, blocked: Seq<Seq<char>>, w: World)
    ensures
        one_line(reg_line(id, rule, blocked, w)),
{
    lemma_values();
    lemma_item_lines();
}

proof fn lemma_dir_line(
    id: Seq<char>,
    rule: JsonV,
    blocked: Seq<Seq<char>>,
    evaluated: Seq<char>,
    t: Target,
    w: World,
)
    ensures
        one_line(dir_line(id, rule, blocked, evaluated, t, w)),
{
    lemma_values();
    lemma_item_lines();
}

/// Whatever a rule says and whatever is on disk, each thing that a cleanup scan reports is
/// one line: no name and no path can break it apart.
pub proof fn law_report_is_lines(
    id: Seq<char>,
    rule: JsonV,
    configured: JsonV,
    running: Seq<Seq<char>>,
    rows: nat,
    w: World,
)
    ensures
        forall|i: int|
            0 <= i < rule_report(id, rule, configured, running, rows, w).out.len() ==> one_line(
                #[trigger] rule_report(id, rule, configured, running, rows, w).out[i],
            ),
{
    let r = rule_report(id, rule, configured, running, rows, w);
    let blocked = blocked_by(rule, running);
    let f = rule_found(rule, rows, w);
    lemma_dism_line(id, rule);
    lemma_files_line(id, rule, blocked, f.size, f.files.len(), f.locked, f.truncated);
    lemma_reg_line(id, rule, blocked, w);
    if let Some(expr) = text_member(rule, "pathPs"@) {
        if let Some(p) = rule_path(expr, w.env) {
            lemma_dir_line(id, rule, blocked, p, target(id, rule, configured, p, w), w);
        }
    }
    assert forall|i: int| 0 <= i < r.out.len() implies one_line(#[trigger] r.out[i]) by {
        if i > 0 {
            assert(r.out[i] == plan_lines(id, f.files)[i - 1]);
            lemma_plan_line(id, f.files[i - 1].0, f.files[i - 1].1);
        }
    }
}

} // verus!
