//! The rules of the cleanup: the scripts made from them, the items they hold, the
//! switches a user may set, and where newer rules come from.

use crate::json::{
    array_member, lemma_view_arr, lemma_view_obj, member, members, text_member,
    values, Json, JsonV,
};
use crate::text::{
    cat3, chars_of, find_from, occurs_at, same, string_of, texts,
};
use crate::value::{
    bool_member, copy_items, copy_json, jarray, json_in, json_out, jtext, key_at, law_set_member,
    read_json, set_member, with_member, write_json, Fields, NumberV,
};
use crate::version::{below, nothing, version_of, Version};
use vstd::prelude::*;

verus! {

// --------------------------------------------------------------------------- scripts

/// The first place at or after `i` where a text holds another.
pub open spec fn place_of(s: Seq<char>, p: Seq<char>, i: int) -> Option<int>
    decreases s.len() - i + 1,
{
    if i < 0 || i > s.len() {
        None
    } else if occurs_at(s, p, i) {
        Some(i)
    } else {
        place_of(s, p, i + 1)
    }
}

proof fn lemma_place(s: Seq<char>, p: Seq<char>, i: int, at: int)
    requires
        0 <= i <= at <= s.len(),
        occurs_at(s, p, at),
        forall|k: int| i <= k < at ==> !occurs_at(s, p, k),
    ensures
        place_of(s, p, i) == Some(at),
    decreases at - i,
{
    if i < at {
        assert(!occurs_at(s, p, i));
        lemma_place(s, p, i + 1, at);
    }
}

proof fn lemma_no_place(s: Seq<char>, p: Seq<char>, i: int)
    requires
        0 <= i,
        forall|k: int| i <= k <= s.len() ==> !occurs_at(s, p, k),
    ensures
        place_of(s, p, i) is None,
    decreases s.len() - i + 1,
{
    if i <= s.len() {
        assert(!occurs_at(s, p, i));
        lemma_no_place(s, p, i + 1);
    }
}

fn find_place(a: &Vec<char>, p: &Vec<char>) -> (out: Option<usize>)
    ensures
        match out {
            Some(i) => place_of(a@, p@, 0) == Some(i as int) && i + p.len() <= a.len(),
            None => place_of(a@, p@, 0) is None,
        },
{
    let r: Option<usize> = find_from(a, p, 0);
    proof {
        match r {
            Some(i) => {
                lemma_place(a@, p@, 0, i as int);
            },
            None => {
                lemma_no_place(a@, p@, 0);
            },
        }
    }
    r
}

/// A text with another in place of the first occurrence of a token.
pub open spec fn replaced_once(s: Seq<char>, token: Seq<char>, value: Seq<char>) -> Seq<char> {
    match place_of(s, token, 0) {
        Some(i) => s.take(i) + value + s.skip((i + token.len()) as int),
        None => s,
    }
}

/// A text with another in place of the first occurrence of a token.
pub fn sub_once(text: &str, token: &str, value: &str) -> (out: String)
    ensures
        out@ == replaced_once(text@, token@, value@),
{
    let a: Vec<char> = chars_of(text);
    let p: Vec<char> = chars_of(token);
    match find_place(&a, &p) {
        Some(i) => {
            let head: String = string_of(&a, 0, i);
            let tail: String = string_of(&a, i + p.len(), a.len());
            assert(head@ =~= text@.take(i as int));
            assert(tail@ =~= text@.skip((i + p@.len()) as int));
            cat3(head.as_str(), value, tail.as_str())
        },
        None => text.to_owned(),
    }
}

/// What ends the note on where a template comes from.
pub open spec fn note_end() -> Seq<char> {
    "# PROVENANCE>>>"@
}

/// A template without the note at its head, and without the line break behind it.
pub open spec fn body_of(raw: Seq<char>) -> Seq<char> {
    let rest = match place_of(raw, note_end(), 0) {
        Some(i) => raw.skip((i + note_end().len()) as int),
        None => raw,
    };
    if rest.len() > 0 && rest[0] == '\n' {
        rest.skip(1)
    } else {
        rest
    }
}

/// A template without the note at its head.
pub fn template_body(raw: &str) -> (out: String)
    ensures
        out@ == body_of(raw@),
{
    let a: Vec<char> = chars_of(raw);
    let p: Vec<char> = chars_of("# PROVENANCE>>>");
    let start: usize = match find_place(&a, &p) {
        Some(i) => i + p.len(),
        None => 0,
    };
    let ghost rest = match place_of(raw@, note_end(), 0) {
        Some(i) => raw@.skip((i + note_end().len()) as int),
        None => raw@,
    };
    assert(rest =~= raw@.skip(start as int));
    if start < a.len() && a[start] == '\n' {
        let out: String = string_of(&a, start + 1, a.len());
        assert(out@ =~= rest.skip(1));
        out
    } else {
        let out: String = string_of(&a, start, a.len());
        assert(out@ =~= rest);
        out
    }
}

/// A text with every single quote doubled.
pub open spec fn doubled(s: Seq<char>) -> Seq<char>
    decreases s.len(),
{
    if s.len() == 0 {
        Seq::empty()
    } else if s.last() == '\'' {
        doubled(s.drop_last()).push('\'').push('\'')
    } else {
        doubled(s.drop_last()).push(s.last())
    }
}

/// A text with every single quote doubled.
pub fn ps_escape_single(s: &str) -> (out: String)
    ensures
        out@ == doubled(s@),
{
    let a: Vec<char> = chars_of(s);
    let mut out: String = String::new();
    let mut i: usize = 0;
    assert(out@ =~= doubled(a@.take(0)));
    while i < a.len()
        invariant
            i <= a@.len(),
            a@ == s@,
            out@ == doubled(a@.take(i as int)),
        decreases a@.len() - i,
    {
        assert(a@.take(i + 1).drop_last() =~= a@.take(i as int));
        if a[i] == '\'' {
            out.push('\'');
            out.push('\'');
        } else {
            out.push(a[i]);
        }
        i += 1;
    }
    assert(a@.take(a@.len() as int) =~= a@);
    out
}

/// A list of texts as a value.
pub open spec fn text_values(list: Seq<Seq<char>>) -> JsonV {
    JsonV::Arr(Seq::new(list.len(), |i: int| JsonV::Str(list[i])))
}

/// A list of texts as a value.
pub fn json_texts(list: &Vec<String>) -> (out: Json)
    ensures
        out.view() == text_values(texts(list@)),
{
    let mut v: Vec<Json> = Vec::new();
    let mut i: usize = 0;
    while i < list.len()
        invariant
            i <= list@.len(),
            v@.len() == i,
            forall|k: int| 0 <= k < i ==> (#[trigger] v@[k]).view() == JsonV::Str(list@[k]@),
        decreases list@.len() - i,
    {
        v.push(jtext(list[i].as_str()));
        i += 1;
    }
    assert(values(v@) =~= Seq::new(texts(list@).len(), |i: int| JsonV::Str(texts(list@)[i])));
    jarray(v)
}

/// A value as it stands between the quotes of a script.
pub open spec fn quoted_value(v: JsonV) -> Seq<char> {
    doubled(json_out(v))
}

fn quote_value(v: &Json) -> (out: String)
    ensures
        out@ == quoted_value(v.view()),
{
    ps_escape_single(write_json(v).as_str())
}

/// The script that scans.
pub open spec fn scan_script(
    template: Seq<char>,
    categories: Seq<Seq<char>>,
    configured: JsonV,
    rules: JsonV,
    dll: Seq<char>,
) -> Seq<char> {
    let a = replaced_once(
        body_of(template),
        "${CATEGORIES_PLACEHOLDER}"@,
        quoted_value(text_values(categories)),
    );
    let b = replaced_once(a, "${CONFIGURED_PATHS_PLACEHOLDER}"@, quoted_value(configured));
    let c = replaced_once(b, "${RULES_JSON_PLACEHOLDER}"@, quoted_value(rules));
    replaced_once(c, "${FASTSIZE_DLL_PLACEHOLDER}"@, doubled(dll))
}

/// The script that scans.
pub fn build_scan_script(
    template: &str,
    categories: &Vec<String>,
    configured: &Json,
    rules: &Json,
    dll: &str,
) -> (out: String)
    ensures
        out@ == scan_script(
            template@,
            texts(categories@),
            configured.view(),
            rules.view(),
            dll@,
        ),
{
    let t: String = template_body(template);
    let t: String = sub_once(
        t.as_str(),
        "${CATEGORIES_PLACEHOLDER}",
        quote_value(&json_texts(categories)).as_str(),
    );
    let t: String = sub_once(
        t.as_str(),
        "${CONFIGURED_PATHS_PLACEHOLDER}",
        quote_value(configured).as_str(),
    );
    let t: String = sub_once(t.as_str(), "${RULES_JSON_PLACEHOLDER}", quote_value(rules).as_str());
    sub_once(t.as_str(), "${FASTSIZE_DLL_PLACEHOLDER}", ps_escape_single(dll).as_str())
}

/// A truth value as a script writes it.
pub open spec fn ps_flag(b: bool) -> Seq<char> {
    if b {
        "$true"@
    } else {
        "$false"@
    }
}

fn ps_bool(b: bool) -> (out: &'static str)
    ensures
        out@ == ps_flag(b),
{
    if b {
        "$true"
    } else {
        "$false"
    }
}

/// What a cleanup is asked to do.
#[derive(Debug, Clone, Copy)]
pub struct ExecuteFlags {
    pub force: bool,
    pub to_recycle: bool,
    pub auto_rebuild: bool,
}

/// The script that cleans up.
pub open spec fn execute_script(
    template: Seq<char>,
    items: Seq<JsonV>,
    f: ExecuteFlags,
    rules: JsonV,
    protected: Seq<char>,
    dll: Seq<char>,
) -> Seq<char> {
    let a = replaced_once(body_of(template), "${FORCE_PLACEHOLDER}"@, ps_flag(f.force));
    let b = replaced_once(a, "${RECYCLE_PLACEHOLDER}"@, ps_flag(f.to_recycle));
    let c = replaced_once(b, "${AUTO_REBUILD_PLACEHOLDER}"@, ps_flag(f.auto_rebuild));
    let d = replaced_once(c, "${ITEMS_PLACEHOLDER}"@, quoted_value(JsonV::Arr(items)));
    let e = replaced_once(d, "${RULES_JSON_PLACEHOLDER}"@, quoted_value(rules));
    let g = replaced_once(e, "${PROTECTED_JSON_PLACEHOLDER}"@, doubled(protected));
    replaced_once(g, "${FASTSIZE_DLL_PLACEHOLDER}"@, doubled(dll))
}

/// The script that cleans up.
pub fn build_execute_script(
    template: &str,
    items: &Vec<Json>,
    f: ExecuteFlags,
    rules: &Json,
    protected: &str,
    dll: &str,
) -> (out: String)
    ensures
        out@ == execute_script(template@, values(items@), f, rules.view(), protected@, dll@),
{
    let list: Json = jarray(copy_items(items));
    let t: String = template_body(template);
    let t: String = sub_once(t.as_str(), "${FORCE_PLACEHOLDER}", ps_bool(f.force));
    let t: String = sub_once(t.as_str(), "${RECYCLE_PLACEHOLDER}", ps_bool(f.to_recycle));
    let t: String = sub_once(t.as_str(), "${AUTO_REBUILD_PLACEHOLDER}", ps_bool(f.auto_rebuild));
    let t: String = sub_once(t.as_str(), "${ITEMS_PLACEHOLDER}", quote_value(&list).as_str());
    let t: String = sub_once(t.as_str(), "${RULES_JSON_PLACEHOLDER}", quote_value(rules).as_str());
    let t: String = sub_once(
        t.as_str(),
        "${PROTECTED_JSON_PLACEHOLDER}",
        ps_escape_single(protected).as_str(),
    );
    sub_once(t.as_str(), "${FASTSIZE_DLL_PLACEHOLDER}", ps_escape_single(dll).as_str())
}

/// The script that lists what an item would delete.
pub open spec fn detail_script(
    template: Seq<char>,
    id: Seq<char>,
    path: Seq<char>,
    rules: JsonV,
) -> Seq<char> {
    let a = replaced_once(body_of(template), "${DETAIL_ID_PLACEHOLDER}"@, doubled(id));
    let b = replaced_once(a, "${DETAIL_PATH_PLACEHOLDER}"@, doubled(path));
    replaced_once(b, "${DETAIL_RULES_JSON_PLACEHOLDER}"@, quoted_value(rules))
}

/// The script that lists what an item would delete.
pub fn build_detail_script(template: &str, id: &str, resolved_path: &str, rules: &Json) -> (out:
    String)
    ensures
        out@ == detail_script(template@, id@, resolved_path@, rules.view()),
{
    let t: String = template_body(template);
    let t: String = sub_once(
        t.as_str(),
        "${DETAIL_ID_PLACEHOLDER}",
        ps_escape_single(id).as_str(),
    );
    let t: String = sub_once(
        t.as_str(),
        "${DETAIL_PATH_PLACEHOLDER}",
        ps_escape_single(resolved_path).as_str(),
    );
    sub_once(t.as_str(), "${DETAIL_RULES_JSON_PLACEHOLDER}", quote_value(rules).as_str())
}

// ----------------------------------------------------------------------------- items

/// The items of the first `n` parts of a group.
pub open spec fn part_items(parts: Seq<JsonV>, n: int) -> Seq<JsonV>
    decreases n,
{
    if n <= 0 {
        Seq::empty()
    } else {
        part_items(parts, n - 1) + items_of(parts[n - 1])
    }
}

/// The items that a part of a group lists.
pub open spec fn items_of(v: JsonV) -> Seq<JsonV> {
    match array_member(v, "items"@) {
        Some(a) => a,
        None => Seq::empty(),
    }
}

/// The items of a group: those of its parts where it has parts, else its own.
pub open spec fn group_items(g: JsonV) -> Seq<JsonV> {
    match array_member(g, "subGroups"@) {
        Some(parts) => part_items(parts, parts.len() as int),
        None => items_of(g),
    }
}

/// The groups of rules.
pub open spec fn groups_in(rules: JsonV) -> Seq<JsonV> {
    match array_member(rules, "groups"@) {
        Some(a) => a,
        None => Seq::empty(),
    }
}

/// The items of the first `n` groups.
pub open spec fn all_items(groups: Seq<JsonV>, n: int) -> Seq<JsonV>
    decreases n,
{
    if n <= 0 {
        Seq::empty()
    } else {
        all_items(groups, n - 1) + group_items(groups[n - 1])
    }
}

/// The items of rules.
pub open spec fn rule_items(rules: JsonV) -> Seq<JsonV> {
    all_items(groups_in(rules), groups_in(rules).len() as int)
}

/// The values behind a list of references.
pub open spec fn refs(v: Seq<&Json>) -> Seq<JsonV> {
    Seq::new(v.len(), |i: int| v[i].view())
}

fn push_items<'a>(v: &'a Json, out: &mut Vec<&'a Json>)
    ensures
        refs(final(out)@) == refs(old(out)@) + items_of(v.view()),
{
    let ghost start = refs(out@);
    assert(start + Seq::<JsonV>::empty() =~= start);
    if let Some(a) = v.array("items") {
        let ghost list = values(a@);
        assert(items_of(v.view()) == list);
        let mut i: usize = 0;
        assert(start + list.take(0) =~= start);
        while i < a.len()
            invariant
                i <= a@.len(),
                list == values(a@),
                refs(out@) == start + list.take(i as int),
            decreases a@.len() - i,
        {
            let ghost before = out@;
            out.push(&a[i]);
            assert(list[i as int] == a@[i as int].view());
            assert(refs(out@) =~= refs(before).push(list[i as int]));
            i += 1;
            assert(list.take(i as int) =~= list.take(i - 1).push(list[i - 1]));
            assert(refs(out@) =~= start + list.take(i as int));
        }
        assert(list.take(a@.len() as int) =~= list);
    }
}

/// The items of a group.
pub fn collect_group_items<'a>(group: &'a Json, out: &mut Vec<&'a Json>)
    ensures
        refs(final(out)@) == refs(old(out)@) + group_items(group.view()),
{
    let ghost start = refs(out@);
    match group.array("subGroups") {
        Some(parts) => {
            let ghost pv = values(parts@);
            let mut i: usize = 0;
            assert(start + part_items(pv, 0) =~= start);
            while i < parts.len()
                invariant
                    i <= parts@.len(),
                    pv == values(parts@),
                    refs(out@) == start + part_items(pv, i as int),
                decreases parts@.len() - i,
            {
                assert(pv[i as int] == parts@[i as int].view());
                push_items(&parts[i], out);
                i += 1;
                assert(refs(out@) =~= start + part_items(pv, i as int));
            }
        },
        None => {
            push_items(group, out);
        },
    }
}

/// The items of rules.
pub fn collect_items(rules: &Json) -> (out: Vec<&Json>)
    ensures
        refs(out@) == rule_items(rules.view()),
{
    let mut out: Vec<&Json> = Vec::new();
    assert(refs(out@) =~= Seq::empty());
    if let Some(groups) = rules.array("groups") {
        let ghost gv = values(groups@);
        let mut i: usize = 0;
        while i < groups.len()
            invariant
                i <= groups@.len(),
                gv == values(groups@),
                refs(out@) == all_items(gv, i as int),
            decreases groups@.len() - i,
        {
            assert(gv[i as int] == groups@[i as int].view());
            collect_group_items(&groups[i], &mut out);
            i += 1;
        }
    }
    out
}

/// The first of the items from `i` on that has an id.
pub open spec fn item_with_id(list: Seq<JsonV>, id: Seq<char>, i: int) -> Option<JsonV>
    decreases list.len() - i,
{
    if i < 0 || i >= list.len() {
        None
    } else if text_member(list[i], "id"@) == Some(id) {
        Some(list[i])
    } else {
        item_with_id(list, id, i + 1)
    }
}

/// The rule with an id.
pub open spec fn rule_with_id(rules: JsonV, id: Seq<char>) -> Option<JsonV> {
    item_with_id(rule_items(rules), id, 0)
}

/// The rule with an id.
pub fn find_cleanup_rule_by_id<'a>(rules: &'a Json, id: &str) -> (out: Option<&'a Json>)
    ensures
        match out {
            Some(r) => rule_with_id(rules.view(), id@) == Some(r.view()),
            None => rule_with_id(rules.view(), id@) is None,
        },
{
    let items: Vec<&Json> = collect_items(rules);
    let ghost list = refs(items@);
    let mut i: usize = 0;
    while i < items.len()
        invariant
            i <= items@.len(),
            list == refs(items@),
            list == rule_items(rules.view()),
            item_with_id(list, id@, 0) == item_with_id(list, id@, i as int),
        decreases items@.len() - i,
    {
        assert(list[i as int] == items@[i as int].view());
        if let Some(t) = items[i].text("id") {
            if same(t, id) {
                return Some(items[i]);
            }
        }
        i += 1;
    }
    None
}

// -------------------------------------------------------------------------- switches

/// Whether every one of the first `n` members is an id or a switch.
pub open spec fn plain_members(m: Seq<(Seq<char>, JsonV)>, n: int) -> bool
    decreases n,
{
    n <= 0 || (plain_members(m, n - 1) && (m[n - 1].0 == "id"@ || m[n - 1].0 == "enabled"@))
}

/// Whether an item holds nothing but an id and a switch. What is no object is not
/// looked at.
pub open spec fn switch_only(it: JsonV) -> bool {
    match it {
        JsonV::Obj(m) => plain_members(m, m.len() as int),
        _ => true,
    }
}

/// Whether the first `n` items hold nothing but ids and switches.
pub open spec fn switches_only(list: Seq<JsonV>, n: int) -> bool
    decreases n,
{
    n <= 0 || (switches_only(list, n - 1) && switch_only(list[n - 1]))
}

/// The last of the first `n` items that has an id.
pub open spec fn last_with_id(list: Seq<JsonV>, id: Seq<char>, n: int) -> Option<int>
    decreases n,
{
    if n <= 0 {
        None
    } else if text_member(list[n - 1], "id"@) == Some(id) {
        Some(n - 1)
    } else {
        last_with_id(list, id, n - 1)
    }
}

/// The last item with an id in the first `n` groups: its group, and its place among
/// the items of that group.
pub open spec fn place_in(groups: Seq<JsonV>, id: Seq<char>, n: int) -> Option<(int, int)>
    decreases n,
{
    if n <= 0 {
        None
    } else {
        let list = group_items(groups[n - 1]);
        match last_with_id(list, id, list.len() as int) {
            Some(i) => Some((n - 1, i)),
            None => place_in(groups, id, n - 1),
        }
    }
}

/// An item that is switched on or off.
pub open spec fn switched(it: JsonV, on: bool) -> JsonV {
    with_member(it, "enabled"@, JsonV::Bool(on))
}

/// A part of a group in which an item is switched.
pub open spec fn part_switched(part: JsonV, i: int, on: bool) -> JsonV {
    let list = items_of(part);
    with_member(part, "items"@, JsonV::Arr(list.update(i, switched(list[i], on))))
}

/// The parts of a group in which an item is switched, counted from part `k` on.
pub open spec fn parts_switched(parts: Seq<JsonV>, k: int, i: int, on: bool) -> Seq<JsonV>
    decreases parts.len() - k,
{
    if k < 0 || k >= parts.len() {
        parts
    } else {
        let n = items_of(parts[k]).len();
        if i < n {
            parts.update(k, part_switched(parts[k], i, on))
        } else {
            parts_switched(parts, k + 1, i - n, on)
        }
    }
}

/// A group in which an item is switched.
pub open spec fn group_switched(g: JsonV, i: int, on: bool) -> JsonV {
    match member(g, "subGroups"@) {
        Some(JsonV::Arr(parts)) => with_member(
            g,
            "subGroups"@,
            JsonV::Arr(parts_switched(parts, 0, i, on)),
        ),
        Some(_) => g,
        None => if i < items_of(g).len() {
            part_switched(g, i, on)
        } else {
            g
        },
    }
}

/// Rules in which the item with an id is switched. Where there is no such item,
/// they stay as they are.
pub open spec fn rules_switched(rules: JsonV, id: Seq<char>, on: bool) -> JsonV {
    let groups = groups_in(rules);
    match place_in(groups, id, groups.len() as int) {
        Some((g, i)) => with_member(
            rules,
            "groups"@,
            JsonV::Arr(groups.update(g, group_switched(groups[g], i, on))),
        ),
        None => rules,
    }
}

/// Rules in which the first `n` switches were set. Only a switch that is a truth
/// value, with an id that is a text, is set.
pub open spec fn rules_toggled(rules: JsonV, list: Seq<JsonV>, n: int) -> JsonV
    decreases n,
{
    if n <= 0 {
        rules
    } else {
        let before = rules_toggled(rules, list, n - 1);
        match (text_member(list[n - 1], "id"@), bool_member(list[n - 1], "enabled"@)) {
            (Some(id), Some(on)) => rules_switched(before, id, on),
            _ => before,
        }
    }
}

/// Rules with the switches of a file, none where the file holds anything else.
pub open spec fn custom_rules(rules: JsonV, parsed: JsonV) -> Option<JsonV> {
    let list = rule_items(parsed);
    if switches_only(list, list.len() as int) {
        Some(rules_toggled(rules, list, list.len() as int))
    } else {
        None
    }
}

fn is_switch_only(it: &Json) -> (out: bool)
    ensures
        out == switch_only(it.view()),
{
    match it {
        Json::Obj(m) => {
            proof {
                lemma_view_obj(*m);
            }
            let ghost mv = members(m@);
            let mut plain: bool = true;
            let mut i: usize = 0;
            while i < m.len()
                invariant
                    i <= m@.len(),
                    mv == members(m@),
                    plain == plain_members(mv, i as int),
                decreases m@.len() - i,
            {
                assert(mv[i as int].0 == m@[i as int].0@);
                plain = plain && (same(m[i].0.as_str(), "id") || same(
                    m[i].0.as_str(),
                    "enabled",
                ));
                i += 1;
            }
            plain
        },
        _ => true,
    }
}

fn find_last(list: &Vec<&Json>, id: &str) -> (out: Option<usize>)
    ensures
        match out {
            Some(i) => last_with_id(refs(list@), id@, list@.len() as int) == Some(i as int) && i
                < list@.len(),
            None => last_with_id(refs(list@), id@, list@.len() as int) is None,
        },
{
    let ghost lv = refs(list@);
    let mut n: usize = list.len();
    while n > 0
        invariant
            n <= list@.len(),
            lv == refs(list@),
            last_with_id(lv, id@, list@.len() as int) == last_with_id(lv, id@, n as int),
        decreases n,
    {
        assert(lv[n - 1] == list@[n - 1].view());
        if let Some(t) = list[n - 1].text("id") {
            if same(t, id) {
                return Some(n - 1);
            }
        }
        n -= 1;
    }
    None
}

fn switch_part(part: Json, i: usize, on: bool) -> (out: Json)
    requires
        i < items_of(part.view()).len(),
    ensures
        out.view() == part_switched(part.view(), i as int, on),
{
    let list: Vec<Json> = match part.array("items") {
        Some(a) => copy_items(a),
        None => Vec::new(),
    };
    let ghost lv = items_of(part.view());
    assert(values(list@) =~= lv);
    assert(values(list@).len() == list@.len());
    let mut list: Vec<Json> = list;
    let old_item: Json = copy_json(&list[i]);
    assert(values(list@)[i as int] == list@[i as int].view());
    list.set(i, set_member(old_item, "enabled", Json::Bool(on)));
    assert(values(list@) =~= lv.update(i as int, switched(lv[i as int], on)));
    set_member(part, "items", jarray(list))
}

fn part_len(part: &Json) -> (out: usize)
    ensures
        out == items_of(part.view()).len(),
{
    match part.array("items") {
        Some(a) => {
            assert(values(a@).len() == a@.len());
            a.len()
        },
        None => 0,
    }
}

fn switch_parts(parts: Vec<Json>, i: usize, on: bool) -> (out: Vec<Json>)
    ensures
        values(out@) == parts_switched(values(parts@), 0, i as int, on),
{
    let ghost pv = values(parts@);
    let mut list: Vec<Json> = parts;
    let mut k: usize = 0;
    let mut left: usize = i;
    while k < list.len()
        invariant
            k <= list@.len(),
            pv == values(list@),
            pv == values(parts@),
            parts_switched(pv, 0, i as int, on) == parts_switched(
                pv,
                k as int,
                left as int,
                on,
            ),
        decreases list@.len() - k,
    {
        assert(pv[k as int] == list@[k as int].view());
        let n: usize = part_len(&list[k]);
        if left < n {
            let p: Json = copy_json(&list[k]);
            list.set(k, switch_part(p, left, on));
            assert(values(list@) =~= pv.update(
                k as int,
                part_switched(pv[k as int], left as int, on),
            ));
            return list;
        }
        left -= n;
        k += 1;
    }
    list
}

fn switch_group(g: Json, i: usize, on: bool) -> (out: Json)
    ensures
        out.view() == group_switched(g.view(), i as int, on),
{
    let parts: Option<Vec<Json>> = match g.get("subGroups") {
        Some(Json::Arr(a)) => {
            proof {
                lemma_view_arr(*a);
            }
            Some(copy_items(a))
        },
        Some(_) => {
            return g;
        },
        None => None,
    };
    match parts {
        Some(p) => set_member(g, "subGroups", jarray(switch_parts(p, i, on))),
        None => if i < part_len(&g) {
            switch_part(g, i, on)
        } else {
            g
        },
    }
}

fn find_place_in(groups: &Vec<Json>, id: &str) -> (out: Option<(usize, usize)>)
    ensures
        match out {
            Some(p) => place_in(values(groups@), id@, groups@.len() as int) == Some(
                (p.0 as int, p.1 as int),
            ) && p.0 < groups@.len(),
            None => place_in(values(groups@), id@, groups@.len() as int) is None,
        },
{
    let ghost gv = values(groups@);
    let mut n: usize = groups.len();
    while n > 0
        invariant
            n <= groups@.len(),
            gv == values(groups@),
            place_in(gv, id@, groups@.len() as int) == place_in(gv, id@, n as int),
        decreases n,
    {
        assert(gv[n - 1] == groups@[n - 1].view());
        let mut list: Vec<&Json> = Vec::new();
        assert(refs(list@) =~= Seq::empty());
        collect_group_items(&groups[n - 1], &mut list);
        assert(refs(list@) =~= group_items(gv[n - 1]));
        if let Some(i) = find_last(&list, id) {
            return Some((n - 1, i));
        }
        n -= 1;
    }
    None
}

fn switch_rules(rules: Json, id: &str, on: bool) -> (out: Json)
    ensures
        out.view() == rules_switched(rules.view(), id@, on),
{
    let groups: Vec<Json> = match rules.array("groups") {
        Some(a) => copy_items(a),
        None => Vec::new(),
    };
    let ghost gv = groups_in(rules.view());
    assert(values(groups@) =~= gv);
    match find_place_in(&groups, id) {
        Some((g, i)) => {
            assert(values(groups@)[g as int] == groups@[g as int].view());
            let one: Json = copy_json(&groups[g]);
            let mut groups: Vec<Json> = groups;
            groups.set(g, switch_group(one, i, on));
            assert(values(groups@) =~= gv.update(
                g as int,
                group_switched(gv[g as int], i as int, on),
            ));
            set_member(rules, "groups", jarray(groups))
        },
        None => rules,
    }
}

/// Sets the switches of a user's file in the rules. A file that holds anything but
/// ids and switches is refused as a whole, and the rules stay as they are.
pub fn apply_custom_toggles(rules: &mut Json, parsed: &Json) -> (out: bool)
    ensures
        match custom_rules(old(rules).view(), parsed.view()) {
            Some(r) => out && final(rules).view() == r,
            None => !out && *final(rules) == *old(rules),
        },
{
    let items: Vec<&Json> = collect_items(parsed);
    let ghost list = refs(items@);
    let mut fine: bool = true;
    let mut i: usize = 0;
    while i < items.len()
        invariant
            i <= items@.len(),
            list == refs(items@),
            fine == switches_only(list, i as int),
        decreases items@.len() - i,
    {
        assert(list[i as int] == items@[i as int].view());
        fine = fine && is_switch_only(items[i]);
        i += 1;
    }
    if !fine {
        return false;
    }
    let ghost start = rules.view();
    let mut cur: Json = copy_json(rules);
    let mut k: usize = 0;
    while k < items.len()
        invariant
            k <= items@.len(),
            list == refs(items@),
            cur.view() == rules_toggled(start, list, k as int),
        decreases items@.len() - k,
    {
        assert(list[k as int] == items@[k as int].view());
        let it: &Json = items[k];
        if let Some(id) = it.text("id") {
            if let Some(on) = it.flag("enabled") {
                cur = switch_rules(cur, id, on);
            }
        }
        k += 1;
    }
    *rules = cur;
    true
}

// -------------------------------------------------------------------- the rules in use

/// The value that a text stands for, where it has a list of groups.
pub open spec fn rules_in(text: Seq<char>) -> Option<JsonV> {
    match json_in(text) {
        Some(v) => if array_member(v, "groups"@) is Some {
            Some(v)
        } else {
            None
        },
        None => None,
    }
}

/// The rules that a text holds.
pub fn safe_read_json(text: &str) -> (out: Option<Json>)
    ensures
        match out {
            Some(v) => rules_in(text@) == Some(v.view()),
            None => rules_in(text@) is None,
        },
{
    match read_json(text) {
        Some(v) => if v.array("groups").is_some() {
            Some(v)
        } else {
            None
        },
        None => None,
    }
}

/// The rules of the data directory, where there are any whose signature holds and whose
/// version is not below the floor: what the program comes with, or what was put down
/// before, whichever is later.
pub open spec fn data_rules(text: Option<Seq<char>>, signed: bool, floor: NumberV) -> Option<JsonV> {
    match text {
        Some(t) => if !signed {
            None
        } else {
            match rules_in(t) {
                Some(v) => if below(nothing(), floor) && below(
                    version_of(member(v, "rulesVersion"@)),
                    floor,
                ) {
                    None
                } else {
                    Some(v)
                },
                None => None,
            }
        },
        None => None,
    }
}

/// The rules of the data directory that may be used.
pub fn read_verified_data_rules(text: Option<&str>, signed: bool, floor: &Version) -> (out: Option<
    Json,
>)
    ensures
        match out {
            Some(v) => data_rules(
                match text {
                    Some(t) => Some(t@),
                    None => None,
                },
                signed,
                floor.view(),
            ) == Some(v.view()),
            None => data_rules(
                match text {
                    Some(t) => Some(t@),
                    None => None,
                },
                signed,
                floor.view(),
            ) is None,
        },
{
    match text {
        Some(t) => if signed {
            match safe_read_json(t) {
                Some(v) => if Version::none().is_below(floor) && Version::read(
                    v.get("rulesVersion"),
                ).is_below(floor) {
                    None
                } else {
                    Some(v)
                },
                None => None,
            }
        } else {
            None
        },
        None => None,
    }
}

/// Rules that hold nothing.
pub open spec fn no_rules() -> JsonV {
    JsonV::Obj(
        seq![
            ("version"@, JsonV::Num("0"@)),
            ("rulesVersion"@, JsonV::Num("0"@)),
            ("groups"@, JsonV::Arr(Seq::empty())),
        ],
    )
}

/// Rules with the switches of the first `n` files; what is no rules file, and a file
/// that is refused, changes nothing.
pub open spec fn with_custom(rules: JsonV, files: Seq<Seq<char>>, n: int) -> JsonV
    decreases n,
{
    if n <= 0 {
        rules
    } else {
        let before = with_custom(rules, files, n - 1);
        match rules_in(files[n - 1]) {
            Some(p) => match custom_rules(before, p) {
                Some(r) => r,
                None => before,
            },
            None => before,
        }
    }
}

/// The rules in use: those of the data directory, else the built-in ones, with the
/// switches of the user's files.
pub open spec fn rules_in_use(
    data: Option<JsonV>,
    builtin: Seq<char>,
    files: Seq<Seq<char>>,
) -> JsonV {
    let base = match data {
        Some(d) => d,
        None => match rules_in(builtin) {
            Some(b) => b,
            None => no_rules(),
        },
    };
    with_custom(base, files, files.len() as int)
}

/// The rules in use.
pub fn rules_value(data: Option<Json>, builtin: &str, files: &Vec<String>) -> (out: Json)
    ensures
        out.view() == rules_in_use(
            match data {
                Some(d) => Some(d.view()),
                None => None,
            },
            builtin@,
            texts(files@),
        ),
{
    let base: Json = match data {
        Some(d) => d,
        None => match safe_read_json(builtin) {
            Some(b) => b,
            None => {
                let none: Vec<Json> = Vec::new();
                assert(values(none@) =~= Seq::empty());
                let f: Fields = Fields::new().with("version", Json::Num("0".to_owned())).with(
                    "rulesVersion",
                    Json::Num("0".to_owned()),
                ).with("groups", jarray(none));
                assert(f.view() =~= seq![
                    ("version"@, JsonV::Num("0"@)),
                    ("rulesVersion"@, JsonV::Num("0"@)),
                    ("groups"@, JsonV::Arr(Seq::empty())),
                ]);
                f.object()
            },
        },
    };
    let ghost start = base.view();
    let mut cur: Json = base;
    let mut i: usize = 0;
    while i < files.len()
        invariant
            i <= files@.len(),
            cur.view() == with_custom(start, texts(files@), i as int),
        decreases files@.len() - i,
    {
        assert(texts(files@)[i as int] == files@[i as int]@);
        if let Some(p) = safe_read_json(files[i].as_str()) {
            apply_custom_toggles(&mut cur, &p);
        }
        i += 1;
    }
    cur
}

/// The members without the first one that has a key.
pub open spec fn without_key(m: Seq<(Seq<char>, JsonV)>, key: Seq<char>) -> Seq<
    (Seq<char>, JsonV),
> {
    let i = key_at(m, key, 0);
    if i < m.len() {
        m.remove(i)
    } else {
        m
    }
}

/// The paths that a user has bound, without the list of software that older versions
/// kept beside them. What is no object binds nothing.
pub open spec fn bound_paths(text: Option<Seq<char>>) -> JsonV {
    match text {
        Some(t) => match json_in(t) {
            Some(JsonV::Obj(m)) => JsonV::Obj(without_key(m, "softwareInventory"@)),
            _ => JsonV::Obj(Seq::empty()),
        },
        None => JsonV::Obj(Seq::empty()),
    }
}

/// The paths that a user has bound.
pub fn load_paths_config(text: Option<&str>) -> (out: Json)
    ensures
        out.view() == bound_paths(
            match text {
                Some(t) => Some(t@),
                None => None,
            },
        ),
{
    if let Some(t) = text {
        if let Some(Json::Obj(m)) = read_json(t) {
            proof {
                lemma_view_obj(m);
            }
            let ghost mv = members(m@);
            let mut m: Vec<(String, Json)> = m;
            let mut i: usize = 0;
            while i < m.len() && !same(m[i].0.as_str(), "softwareInventory")
                invariant
                    i <= m@.len(),
                    mv == members(m@),
                    key_at(mv, "softwareInventory"@, 0) == key_at(
                        mv,
                        "softwareInventory"@,
                        i as int,
                    ),
                decreases m@.len() - i,
            {
                assert(mv[i as int].0 == m@[i as int].0@);
                i += 1;
            }
            if i < m.len() {
                assert(mv[i as int].0 == m@[i as int].0@);
                m.remove(i);
                assert(members(m@) =~= mv.remove(i as int));
            }
            proof {
                lemma_view_obj(m);
            }
            return Json::Obj(m);
        }
    }
    let f: Fields = Fields::new();
    f.object()
}

// ------------------------------------------------------------------------------ laws

/// To switch an item changes nothing about it but the switch.
pub proof fn law_switch_keeps_the_rest(it: JsonV, on: bool, key: Seq<char>)
    requires
        key != "enabled"@,
    ensures
        member(switched(it, on), key) == member(it, key),
{
    law_set_member(it, "enabled"@, JsonV::Bool(on), key);
}

/// A file with one item that holds anything but an id and a switch is refused.
pub proof fn law_foreign_member_refused(rules: JsonV, parsed: JsonV, i: int)
    requires
        0 <= i < rule_items(parsed).len(),
        !switch_only(rule_items(parsed)[i]),
    ensures
        custom_rules(rules, parsed) is None,
{
    lemma_not_all(rule_items(parsed), i, rule_items(parsed).len() as int);
}

proof fn lemma_not_all(list: Seq<JsonV>, i: int, n: int)
    requires
        0 <= i < n <= list.len(),
        !switch_only(list[i]),
    ensures
        !switches_only(list, n),
    decreases n,
{
    if i < n - 1 {
        lemma_not_all(list, i, n - 1);
    }
}

/// Rules of the data directory whose version is below the floor are never used, however
/// well they are signed.
pub proof fn law_no_replayed_rules(text: Option<Seq<char>>, signed: bool, floor: NumberV)
    requires
        below(nothing(), floor),
        data_rules(text, signed, floor) is Some,
    ensures
        signed,
        !below(version_of(member(data_rules(text, signed, floor)->0, "rulesVersion"@)), floor),
{
}

} // verus!
