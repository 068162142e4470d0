//! What the rules, their updates and the models come to.

use crate::commands::models::{
    confirmed, is_on, member_text, merged_model, model_patch, secret_of, set_text, settings_with,
    trial_config, trial_reply, verified_reply, with_all,
};
use crate::commands::rules::{
    all_items, body_of, custom_rules, data_rules, doubled, execute_script, group_items,
    group_switched, groups_in, item_with_id, items_of, last_with_id, note_end, part_items,
    part_switched, parts_switched, place_in, place_of, quoted_value, replaced_once, rules_in,
    rules_in_use, rules_switched, rules_toggled, switched, with_custom, ExecuteFlags,
};
use crate::commands::rules_update::{
    all_named, asked, builtin_sources, first_success, is_text, new_mark, rules_refusal, rules_version,
    sources_of, user_sources,
};
use crate::json::{array_member, member, text_member, JsonV};
use crate::laws::object::lemma_member_at;
use crate::numbers::signed_dec;
use crate::text::{dec, occurs, occurs_at, trimmed};
use crate::value::{bool_member, json_in, law_set_member, truthy, with_member, NumberV};
use crate::version::{below, nothing};
use vstd::prelude::*;

verus! {

proof fn lemma_model_keys()
    ensures
        "apiUrl"@ != "apiKey"@,
        "apiUrl"@ != "model"@,
        "apiUrl"@ != "prompt"@,
        "apiUrl"@ != "customName"@,
        "apiUrl"@ != "timeout"@,
        "apiUrl"@ != "enabled"@,
        "apiUrl"@ != "verified"@,
        "apiUrl"@ != "verifiedAt"@,
        "apiUrl"@ != "models"@,
        "apiUrl"@ != "aiScopes"@,
        "apiUrl"@ != "success"@,
        "apiUrl"@ != "message"@,
        "apiUrl"@ != "data"@,
        "apiUrl"@ != "latencyMs"@,
        "apiUrl"@ != "reply"@,
        "apiKey"@ != "model"@,
        "apiKey"@ != "prompt"@,
        "apiKey"@ != "customName"@,
        "apiKey"@ != "timeout"@,
        "apiKey"@ != "enabled"@,
        "apiKey"@ != "verified"@,
        "apiKey"@ != "verifiedAt"@,
        "apiKey"@ != "models"@,
        "apiKey"@ != "aiScopes"@,
        "apiKey"@ != "success"@,
        "apiKey"@ != "message"@,
        "apiKey"@ != "data"@,
        "apiKey"@ != "latencyMs"@,
        "apiKey"@ != "reply"@,
        "model"@ != "prompt"@,
        "model"@ != "customName"@,
        "model"@ != "timeout"@,
        "model"@ != "enabled"@,
        "model"@ != "verified"@,
        "model"@ != "verifiedAt"@,
        "model"@ != "models"@,
        "model"@ != "aiScopes"@,
        "model"@ != "success"@,
        "model"@ != "message"@,
        "model"@ != "data"@,
        "model"@ != "latencyMs"@,
        "model"@ != "reply"@,
        "prompt"@ != "customName"@,
        "prompt"@ != "timeout"@,
        "prompt"@ != "enabled"@,
        "prompt"@ != "verified"@,
        "prompt"@ != "verifiedAt"@,
        "prompt"@ != "models"@,
        "prompt"@ != "aiScopes"@,
        "prompt"@ != "success"@,
        "prompt"@ != "message"@,
        "prompt"@ != "data"@,
        "prompt"@ != "latencyMs"@,
        "prompt"@ != "reply"@,
        "customName"@ != "timeout"@,
        "customName"@ != "enabled"@,
        "customName"@ != "verified"@,
        "customName"@ != "verifiedAt"@,
        "customName"@ != "models"@,
        "customName"@ != "aiScopes"@,
        "customName"@ != "success"@,
        "customName"@ != "message"@,
        "customName"@ != "data"@,
        "customName"@ != "latencyMs"@,
        "customName"@ != "reply"@,
        "timeout"@ != "enabled"@,
        "timeout"@ != "verified"@,
        "timeout"@ != "verifiedAt"@,
        "timeout"@ != "models"@,
        "timeout"@ != "aiScopes"@,
        "timeout"@ != "success"@,
        "timeout"@ != "message"@,
        "timeout"@ != "data"@,
        "timeout"@ != "latencyMs"@,
        "timeout"@ != "reply"@,
        "enabled"@ != "verified"@,
        "enabled"@ != "verifiedAt"@,
        "enabled"@ != "models"@,
        "enabled"@ != "aiScopes"@,
        "enabled"@ != "success"@,
        "enabled"@ != "message"@,
        "enabled"@ != "data"@,
        "enabled"@ != "latencyMs"@,
        "enabled"@ != "reply"@,
        "verified"@ != "verifiedAt"@,
        "verified"@ != "models"@,
        "verified"@ != "aiScopes"@,
        "verified"@ != "success"@,
        "verified"@ != "message"@,
        "verified"@ != "data"@,
        "verified"@ != "latencyMs"@,
        "verified"@ != "reply"@,
        "verifiedAt"@ != "models"@,
        "verifiedAt"@ != "aiScopes"@,
        "verifiedAt"@ != "success"@,
        "verifiedAt"@ != "message"@,
        "verifiedAt"@ != "data"@,
        "verifiedAt"@ != "latencyMs"@,
        "verifiedAt"@ != "reply"@,
        "models"@ != "aiScopes"@,
        "models"@ != "success"@,
        "models"@ != "message"@,
        "models"@ != "data"@,
        "models"@ != "latencyMs"@,
        "models"@ != "reply"@,
        "aiScopes"@ != "success"@,
        "aiScopes"@ != "message"@,
        "aiScopes"@ != "data"@,
        "aiScopes"@ != "latencyMs"@,
        "aiScopes"@ != "reply"@,
        "success"@ != "message"@,
        "success"@ != "data"@,
        "success"@ != "latencyMs"@,
        "success"@ != "reply"@,
        "message"@ != "data"@,
        "message"@ != "latencyMs"@,
        "message"@ != "reply"@,
        "data"@ != "latencyMs"@,
        "data"@ != "reply"@,
        "latencyMs"@ != "reply"@,
{
    reveal_strlit("apiUrl");
    reveal_strlit("apiKey");
    reveal_strlit("model");
    reveal_strlit("prompt");
    reveal_strlit("customName");
    reveal_strlit("timeout");
    reveal_strlit("enabled");
    reveal_strlit("verified");
    reveal_strlit("verifiedAt");
    reveal_strlit("models");
    reveal_strlit("aiScopes");
    reveal_strlit("success");
    reveal_strlit("message");
    reveal_strlit("data");
    reveal_strlit("latencyMs");
    reveal_strlit("reply");
    assert("apiUrl"@.len() == 6);
    assert("apiKey"@.len() == 6);
    assert("model"@.len() == 5);
    assert("prompt"@.len() == 6);
    assert("customName"@.len() == 10);
    assert("timeout"@.len() == 7);
    assert("enabled"@.len() == 7);
    assert("verified"@.len() == 8);
    assert("verifiedAt"@.len() == 10);
    assert("models"@.len() == 6);
    assert("aiScopes"@.len() == 8);
    assert("success"@.len() == 7);
    assert("message"@.len() == 7);
    assert("data"@.len() == 4);
    assert("latencyMs"@.len() == 9);
    assert("reply"@.len() == 5);
    assert("apiUrl"@[3] != "apiKey"@[3]);
    assert("apiUrl"@[0] != "prompt"@[0]);
    assert("apiUrl"@[0] != "models"@[0]);
    assert("apiKey"@[0] != "prompt"@[0]);
    assert("apiKey"@[0] != "models"@[0]);
    assert("model"@[0] != "reply"@[0]);
    assert("prompt"@[0] != "models"@[0]);
    assert("customName"@[0] != "verifiedAt"@[0]);
    assert("timeout"@[0] != "enabled"@[0]);
    assert("timeout"@[0] != "success"@[0]);
    assert("timeout"@[0] != "message"@[0]);
    assert("enabled"@[0] != "success"@[0]);
    assert("enabled"@[0] != "message"@[0]);
    assert("verified"@[0] != "aiScopes"@[0]);
    assert("success"@[0] != "message"@[0]);
}


// ------------------------------------------------------------------------------- scripts

proof fn lemma_place(s: Seq<char>, p: Seq<char>, i: int, at: int)
    requires
        0 <= i <= at <= s.len(),
        occurs_at(s, p, at),
        forall|j: int| i <= j < at ==> !occurs_at(s, p, j),
    ensures
        place_of(s, p, i) == Some(at),
    decreases at - i,
{
    if i < at {
        lemma_place(s, p, i + 1, at);
    }
}

proof fn lemma_no_place(s: Seq<char>, p: Seq<char>, i: int)
    requires
        0 <= i,
        !occurs(s, p),
    ensures
        place_of(s, p, i) is None,
    decreases s.len() - i + 1,
{
    assert(!occurs_at(s, p, i));
    if i <= s.len() {
        lemma_no_place(s, p, i + 1);
    }
}

/// A value is put in the place of the first token, and nothing else of the text changes; a text
/// without the token stays as it is.
pub proof fn law_token_is_replaced(a: Seq<char>, token: Seq<char>, b: Seq<char>, value: Seq<char>)
    ensures
        (forall|j: int| 0 <= j < a.len() ==> !occurs_at(a + token + b, token, j)) ==> replaced_once(
            a + token + b,
            token,
            value,
        ) == a + value + b,
        !occurs(a, token) ==> replaced_once(a, token, value) == a,
{
    let s = a + token + b;
    let at = a.len() as int;
    assert(s.subrange(at, at + token.len()) =~= token);
    assert(occurs_at(s, token, at));
    if forall|j: int| 0 <= j < a.len() ==> !occurs_at(s, token, j) {
        lemma_place(s, token, 0, at);
        assert(s.take(at) =~= a);
        assert(s.skip(at + token.len()) =~= b);
        assert(s.take(at) + value + s.skip(at + token.len()) =~= a + value + b);
    }
    if !occurs(a, token) {
        lemma_no_place(a, token, 0);
    }
}

/// The note at the head of a template, with the line break behind it, is no part of a script.
pub proof fn law_note_is_left_out(head: Seq<char>, body: Seq<char>)
    requires
        forall|j: int|
            0 <= j < head.len() ==> !occurs_at(head + note_end() + (seq!['\n'] + body), note_end(), j),
    ensures
        body_of(head + note_end() + (seq!['\n'] + body)) == body,
{
    let tail = seq!['\n'] + body;
    let s = head + note_end() + tail;
    let at = head.len() as int;
    assert(s.subrange(at, at + note_end().len()) =~= note_end());
    lemma_place(s, note_end(), 0, at);
    assert(s.skip(at + note_end().len()) =~= tail);
    assert(tail.skip(1) =~= body);
}

/// Between quotes every quote is doubled, and nothing else changes.
pub proof fn law_quotes_are_doubled(a: Seq<char>, b: Seq<char>)
    ensures
        doubled(a + b) == doubled(a) + doubled(b),
        doubled(seq!['\'']) == seq!['\'', '\''],
        !a.contains('\'') ==> doubled(a) == a,
    decreases a.len() + b.len(),
{
    if b.len() > 0 {
        law_quotes_are_doubled(a, b.drop_last());
        assert((a + b).drop_last() =~= a + b.drop_last());
        assert((a + b).last() == b.last());
        assert(doubled(a + b) =~= doubled(a) + doubled(b));
    } else {
        assert(a + b =~= a);
        assert(doubled(a) + doubled(b) =~= doubled(a));
        if a.len() > 0 {
            law_quotes_are_doubled(a.drop_last(), b);
            if !a.contains('\'') {
                assert(a.last() != '\'') by {
                    assert(a.contains(a[a.len() - 1]));
                }
                assert(!a.drop_last().contains('\'')) by {
                    if a.drop_last().contains('\'') {
                        let k = choose|k: int| 0 <= k < a.len() - 1 && a.drop_last()[k] == '\'';
                        assert(a[k] == '\'');
                    }
                }
                assert(a.drop_last().push(a.last()) =~= a);
            }
        }
    }
    let q = seq!['\''];
    assert(q.drop_last() =~= Seq::empty());
    assert(doubled(q.drop_last()) =~= Seq::empty());
    assert(doubled(q) =~= seq!['\'', '\'']);
}

/// The tokens of the script that cleans up.
pub open spec fn execute_tokens() -> Seq<Seq<char>> {
    seq![
        "${FORCE_PLACEHOLDER}"@,
        "${RECYCLE_PLACEHOLDER}"@,
        "${AUTO_REBUILD_PLACEHOLDER}"@,
        "${ITEMS_PLACEHOLDER}"@,
        "${RULES_JSON_PLACEHOLDER}"@,
        "${PROTECTED_JSON_PLACEHOLDER}"@,
        "${FASTSIZE_DLL_PLACEHOLDER}"@,
    ]
}

/// Whether a text holds no token of the script but one.
pub open spec fn no_other_token(s: Seq<char>, but: int) -> bool {
    forall|k: int| 0 <= k < 7 && k != but ==> !occurs(s, #[trigger] execute_tokens()[k])
}

/// Each token of the script that cleans up stands for its own value: what is asked for by force,
/// whether to use the recycle bin, whether to rebuild, the items, the rules and what is
/// protected.
pub proof fn law_execute_script(
    a: Seq<char>,
    b: Seq<char>,
    template: Seq<char>,
    items: Seq<JsonV>,
    f: ExecuteFlags,
    rules: JsonV,
    protected: Seq<char>,
    dll: Seq<char>,
    which: int,
)
    requires
        0 <= which < 7,
        body_of(template) == a + execute_tokens()[which] + b,
        forall|j: int|
            0 <= j < a.len() ==> !occurs_at(
                a + execute_tokens()[which] + b,
                execute_tokens()[which],
                j,
            ),
        no_other_token(a + execute_tokens()[which] + b, which),
        no_other_token(
            a + script_value(items, f, rules, protected, dll, which) + b,
            which,
        ),
    ensures
        execute_script(template, items, f, rules, protected, dll) == a + script_value(
            items,
            f,
            rules,
            protected,
            dll,
            which,
        ) + b,
{
    let t = execute_tokens();
    let s = body_of(template);
    let v = script_value(items, f, rules, protected, dll, which);
    let r = a + v + b;
    law_token_is_replaced(a, t[which], b, v);
    assert forall|k: int, x: Seq<char>| 0 <= k < which implies #[trigger] replaced_once(s, t[k], x)
        == s by {
        assert(!occurs(s, t[k]));
        lemma_no_place(s, t[k], 0);
    }
    assert forall|k: int, x: Seq<char>| which < k < 7 implies #[trigger] replaced_once(r, t[k], x)
        == r by {
        assert(!occurs(r, t[k]));
        lemma_no_place(r, t[k], 0);
    }
    assert(t[0] == "${FORCE_PLACEHOLDER}"@ && t[1] == "${RECYCLE_PLACEHOLDER}"@ && t[2]
        == "${AUTO_REBUILD_PLACEHOLDER}"@ && t[3] == "${ITEMS_PLACEHOLDER}"@);
    assert(t[4] == "${RULES_JSON_PLACEHOLDER}"@ && t[5] == "${PROTECTED_JSON_PLACEHOLDER}"@ && t[6]
        == "${FASTSIZE_DLL_PLACEHOLDER}"@);
}

/// What a token of the script that cleans up stands for.
pub open spec fn script_value(
    items: Seq<JsonV>,
    f: ExecuteFlags,
    rules: JsonV,
    protected: Seq<char>,
    dll: Seq<char>,
    which: int,
) -> Seq<char> {
    if which == 0 {
        if f.force {
            "$true"@
        } else {
            "$false"@
        }
    } else if which == 1 {
        if f.to_recycle {
            "$true"@
        } else {
            "$false"@
        }
    } else if which == 2 {
        if f.auto_rebuild {
            "$true"@
        } else {
            "$false"@
        }
    } else if which == 3 {
        quoted_value(JsonV::Arr(items))
    } else if which == 4 {
        quoted_value(rules)
    } else if which == 5 {
        doubled(protected)
    } else {
        doubled(dll)
    }
}

// --------------------------------------------------------------------------------- rules

/// Whether an item is one of a group: of one of its parts, or its own.
pub open spec fn item_of_group(g: JsonV, x: JsonV) -> bool {
    match array_member(g, "subGroups"@) {
        Some(parts) => exists|p: int| 0 <= p < parts.len() && items_of(#[trigger] parts[p]).contains(x),
        None => items_of(g).contains(x),
    }
}

proof fn lemma_part_items(parts: Seq<JsonV>, n: int, x: JsonV)
    requires
        0 <= n <= parts.len(),
    ensures
        part_items(parts, n).contains(x) <==> exists|p: int|
            0 <= p < n && items_of(#[trigger] parts[p]).contains(x),
    decreases n,
{
    if n > 0 {
        lemma_part_items(parts, n - 1, x);
        let a = part_items(parts, n - 1);
        let b = items_of(parts[n - 1]);
        let now = part_items(parts, n);
        if a.contains(x) {
            let k = choose|k: int| 0 <= k < a.len() && a[k] == x;
            assert(now[k] == x);
        }
        if b.contains(x) {
            let k = choose|k: int| 0 <= k < b.len() && b[k] == x;
            assert(now[a.len() + k] == x);
        }
        if now.contains(x) {
            let k = choose|k: int| 0 <= k < now.len() && now[k] == x;
            if k < a.len() {
                assert(a[k] == x);
            } else {
                assert(b[k - a.len()] == x);
                assert(items_of(parts[n - 1]).contains(x));
            }
        }
    }
}

/// The rules hold the items of all groups, and of all parts where a group has them.
pub proof fn law_items_of_rules(groups: Seq<JsonV>, n: int, x: JsonV)
    requires
        0 <= n <= groups.len(),
    ensures
        all_items(groups, n).contains(x) <==> exists|g: int|
            0 <= g < n && item_of_group(#[trigger] groups[g], x),
    decreases n,
{
    if n > 0 {
        law_items_of_rules(groups, n - 1, x);
        let a = all_items(groups, n - 1);
        let b = group_items(groups[n - 1]);
        let now = all_items(groups, n);
        if array_member(groups[n - 1], "subGroups"@) is Some {
            let parts = array_member(groups[n - 1], "subGroups"@)->0;
            lemma_part_items(parts, parts.len() as int, x);
        }
        assert(b.contains(x) <==> item_of_group(groups[n - 1], x));
        if a.contains(x) {
            let k = choose|k: int| 0 <= k < a.len() && a[k] == x;
            assert(now[k] == x);
        }
        if b.contains(x) {
            let k = choose|k: int| 0 <= k < b.len() && b[k] == x;
            assert(now[a.len() + k] == x);
        }
        if now.contains(x) {
            let k = choose|k: int| 0 <= k < now.len() && now[k] == x;
            if k < a.len() {
                assert(a[k] == x);
            } else {
                assert(b[k - a.len()] == x);
            }
        }
    }
}

/// The rule with an id is the first that has it.
pub proof fn law_rule_with_id(list: Seq<JsonV>, id: Seq<char>, from: int, i: int)
    requires
        0 <= from <= i < list.len(),
        text_member(list[i], "id"@) == Some(id),
        forall|j: int| from <= j < i ==> text_member(#[trigger] list[j], "id"@) != Some(id),
    ensures
        item_with_id(list, id, from) == Some(list[i]),
    decreases i - from,
{
    if from < i {
        law_rule_with_id(list, id, from + 1, i);
    }
}

proof fn lemma_part_switched(part: JsonV, i: int, on: bool)
    requires
        0 <= i < items_of(part).len(),
    ensures
        items_of(part_switched(part, i, on)) == items_of(part).update(
            i,
            switched(items_of(part)[i], on),
        ),
{
    let list = items_of(part);
    law_set_member(
        part,
        "items"@,
        JsonV::Arr(list.update(i, switched(list[i], on))),
        "subGroups"@,
    );
}

proof fn lemma_part_items_front(a: Seq<JsonV>, b: Seq<JsonV>, n: int)
    requires
        0 <= n <= a.len(),
        n <= b.len(),
        forall|k: int| 0 <= k < n ==> a[k] == b[k],
    ensures
        part_items(a, n) == part_items(b, n),
    decreases n,
{
    if n > 0 {
        lemma_part_items_front(a, b, n - 1);
    }
}

proof fn lemma_part_items_update(parts: Seq<JsonV>, k: int, part: JsonV, i: int, x: JsonV, n: int)
    requires
        0 <= k < n <= parts.len(),
        0 <= i < items_of(parts[k]).len(),
        items_of(part) == items_of(parts[k]).update(i, x),
    ensures
        part_items(parts.update(k, part), n) == part_items(parts, n).update(
            part_items(parts, k).len() + i,
            x,
        ),
        part_items(parts, k).len() + i < part_items(parts, n).len(),
    decreases n,
{
    let now = parts.update(k, part);
    if n - 1 == k {
        lemma_part_items_front(now, parts, k);
        assert(part_items(now, n) =~= part_items(parts, n).update(part_items(parts, k).len() + i, x));
    } else {
        lemma_part_items_update(parts, k, part, i, x, n - 1);
        assert(now[n - 1] == parts[n - 1]);
        assert(part_items(now, n) =~= part_items(parts, n).update(part_items(parts, k).len() + i, x));
    }
}

proof fn lemma_parts_switched(parts: Seq<JsonV>, k: int, i: int, on: bool)
    requires
        0 <= k <= parts.len(),
        0 <= i < part_items(parts, parts.len() as int).len() - part_items(parts, k).len(),
    ensures
        ({
            let n = parts.len() as int;
            let at = part_items(parts, k).len() + i;
            part_items(parts_switched(parts, k, i, on), n) == part_items(parts, n).update(
                at,
                switched(part_items(parts, n)[at], on),
            ) && parts_switched(parts, k, i, on).len() == n
        }),
    decreases parts.len() - k,
{
    let n = parts.len() as int;
    if k < n {
        let list = items_of(parts[k]);
        if i < list.len() {
            lemma_part_switched(parts[k], i, on);
            lemma_part_items_at(parts, k, i, n);
            lemma_part_items_update(
                parts,
                k,
                part_switched(parts[k], i, on),
                i,
                switched(list[i], on),
                n,
            );
        } else {
            lemma_parts_switched(parts, k + 1, i - list.len(), on);
        }
    }
}

proof fn lemma_part_items_at(parts: Seq<JsonV>, k: int, i: int, n: int)
    requires
        0 <= k < n <= parts.len(),
        0 <= i < items_of(parts[k]).len(),
    ensures
        part_items(parts, k).len() + i < part_items(parts, n).len(),
        part_items(parts, n)[part_items(parts, k).len() + i] == items_of(parts[k])[i],
    decreases n,
{
    if k < n - 1 {
        lemma_part_items_at(parts, k, i, n - 1);
    }
}

/// To switch an item of a group changes that item alone, and its switch alone.
pub proof fn law_item_is_switched(g: JsonV, i: int, on: bool)
    requires
        0 <= i < group_items(g).len(),
        member(g, "subGroups"@) is None || array_member(g, "subGroups"@) is Some,
    ensures
        group_items(group_switched(g, i, on)) == group_items(g).update(
            i,
            switched(group_items(g)[i], on),
        ),
        group_items(g)[i] is Obj ==> bool_member(
            group_items(group_switched(g, i, on))[i],
            "enabled"@,
        ) == Some(on),
{
    reveal_strlit("items");
    reveal_strlit("subGroups");
    assert("items"@.len() == 5 && "subGroups"@.len() == 9);
    let list = group_items(g);
    law_set_member(list[i], "enabled"@, JsonV::Bool(on), "id"@);
    match array_member(g, "subGroups"@) {
        Some(parts) => {
            assert(part_items(parts, 0).len() == 0);
            lemma_parts_switched(parts, 0, i, on);
            law_set_member(
                g,
                "subGroups"@,
                JsonV::Arr(parts_switched(parts, 0, i, on)),
                "items"@,
            );
        },
        None => {
            lemma_part_switched(g, i, on);
            law_set_member(
                g,
                "items"@,
                JsonV::Arr(items_of(g).update(i, switched(items_of(g)[i], on))),
                "subGroups"@,
            );
        },
    }
}

proof fn lemma_last(list: Seq<JsonV>, id: Seq<char>, n: int)
    requires
        0 <= n <= list.len(),
    ensures
        last_with_id(list, id, n) matches Some(i) ==> 0 <= i < n && text_member(list[i], "id"@)
            == Some(id),
    decreases n,
{
    if n > 0 {
        lemma_last(list, id, n - 1);
    }
}

proof fn lemma_place_in(groups: Seq<JsonV>, id: Seq<char>, n: int)
    requires
        0 <= n <= groups.len(),
    ensures
        place_in(groups, id, n) matches Some(p) ==> 0 <= p.0 < n && 0 <= p.1 < group_items(
            groups[p.0],
        ).len() && text_member(group_items(groups[p.0])[p.1], "id"@) == Some(id),
    decreases n,
{
    if n > 0 {
        let list = group_items(groups[n - 1]);
        lemma_last(list, id, list.len() as int);
        lemma_place_in(groups, id, n - 1);
    }
}

/// To switch the item with an id changes the group that holds it alone, and the place that is
/// switched holds an item with the id; without such an item nothing changes.
pub proof fn law_rules_are_switched(rules: JsonV, id: Seq<char>, on: bool)
    requires
        rules is Obj,
    ensures
        ({
            let groups = groups_in(rules);
            match place_in(groups, id, groups.len() as int) {
                Some((g, i)) => groups_in(rules_switched(rules, id, on)) == groups.update(
                    g,
                    group_switched(groups[g], i, on),
                ) && 0 <= g < groups.len() && 0 <= i < group_items(groups[g]).len() && text_member(
                    group_items(groups[g])[i],
                    "id"@,
                ) == Some(id),
                None => rules_switched(rules, id, on) == rules,
            }
        }),
{
    let groups = groups_in(rules);
    lemma_place_in(groups, id, groups.len() as int);
    if place_in(groups, id, groups.len() as int) is Some {
        let (g, i) = place_in(groups, id, groups.len() as int)->0;
        law_set_member(
            rules,
            "groups"@,
            JsonV::Arr(groups.update(g, group_switched(groups[g], i, on))),
            "id"@,
        );
    }
}

/// A switch that names an item and says on or off is set; any other changes nothing.
pub proof fn law_switches_are_set(rules: JsonV, list: Seq<JsonV>, n: int)
    requires
        0 < n <= list.len(),
    ensures
        text_member(list[n - 1], "id"@) is Some && bool_member(list[n - 1], "enabled"@) is Some
            ==> rules_toggled(rules, list, n) == rules_switched(
            rules_toggled(rules, list, n - 1),
            text_member(list[n - 1], "id"@)->0,
            bool_member(list[n - 1], "enabled"@)->0,
        ),
        text_member(list[n - 1], "id"@) is None || bool_member(list[n - 1], "enabled"@) is None
            ==> rules_toggled(rules, list, n) == rules_toggled(rules, list, n - 1),
{
}

/// The rules of the data directory are used exactly where they are signed, are rules, and are
/// not below a floor that there is.
pub proof fn law_data_rules(text: Seq<char>, signed: bool, floor: NumberV)
    ensures
        data_rules(Some(text), signed, floor) is Some <==> signed && rules_in(text) is Some && !(
        below(nothing(), floor) && below(
            crate::version::version_of(member(rules_in(text)->0, "rulesVersion"@)),
            floor,
        )),
        data_rules(Some(text), signed, floor) matches Some(v) ==> rules_in(text) == Some(v),
        data_rules(None, signed, floor) is None,
        rules_in(text) matches Some(v) ==> json_in(text) == Some(v) && array_member(v, "groups"@) is Some,
{
}

/// The rules in use are those of the data directory where there are any, else those that come
/// with the program, and the files of the user can do no more than switch them.
pub proof fn law_rules_in_use(data: JsonV, builtin: Seq<char>, file: Seq<char>)
    ensures
        rules_in_use(Some(data), builtin, Seq::empty()) == data,
        rules_in(builtin) matches Some(b) ==> rules_in_use(None, builtin, Seq::empty()) == b,
        rules_in(file) is None ==> rules_in_use(Some(data), builtin, seq![file]) == data,
        rules_in(file) matches Some(p) && custom_rules(data, p) is None ==> rules_in_use(
            Some(data),
            builtin,
            seq![file],
        ) == data,
{
    let one = seq![file];
    assert(one.len() == 1 && one[0] == file);
    reveal_with_fuel(with_custom, 2);
}

// ------------------------------------------------------------------------------- updates

/// Rules are taken exactly where their text is of a size that rules have, their signature holds,
/// they can be read, have groups and items, every item has an id and a name, and they are not
/// older than what is in use.
pub proof fn law_rules_are_taken(text: Seq<char>, signature: Result<(), String>, current: NumberV)
    ensures
        rules_refusal(text, signature, current) is None <==> {
            &&& 4096 <= text.len() <= 2_097_152
            &&& signature is Ok
            &&& json_in(text) is Some
            &&& groups_in(json_in(text)->0).len() > 0
            &&& crate::commands::rules::rule_items(json_in(text)->0).len() > 0
            &&& all_named(
                crate::commands::rules::rule_items(json_in(text)->0),
                crate::commands::rules::rule_items(json_in(text)->0).len() as int,
            )
            &&& !below(rules_version(json_in(text)->0), current)
        },
{
}

/// Items are named where each has a text for its id and one for its name.
pub proof fn law_named(list: Seq<JsonV>, n: int)
    requires
        0 <= n <= list.len(),
    ensures
        all_named(list, n) <==> forall|i: int|
            0 <= i < n ==> is_text(#[trigger] list[i], "id"@) && is_text(list[i], "name"@),
    decreases n,
{
    if n > 0 {
        law_named(list, n - 1);
        if forall|i: int|
            0 <= i < n ==> is_text(#[trigger] list[i], "id"@) && is_text(list[i], "name"@) {
            assert(is_text(list[n - 1], "id"@));
        }
    }
}

/// The sources of a user come before the built-in ones, which are always tried.
pub proof fn law_sources(cfg: JsonV)
    ensures
        sources_of(None).0 == builtin_sources(),
        array_member(cfg, "urls"@) matches Some(a) ==> sources_of(Some(cfg)).0 == user_sources(
            a,
            a.len() as int,
        ) + builtin_sources(),
        array_member(cfg, "urls"@) is None ==> sources_of(Some(cfg)).0 == builtin_sources(),
        builtin_sources().len() == 3,
{
    assert(Seq::<Seq<char>>::empty() + builtin_sources() =~= builtin_sources());
}

/// Every address that a user names is a source, up to the limit, and nothing else is.
pub proof fn law_user_sources(list: Seq<JsonV>, n: int, i: int, u: Seq<char>)
    requires
        0 <= i < n <= list.len() <= 10,
        list[i] == JsonV::Str(u),
        "https://"@.is_prefix_of(u) || "http://"@.is_prefix_of(u),
    ensures
        user_sources(list, n).contains(u),
    decreases n,
{
    let now = user_sources(list, n);
    let before = user_sources(list, n - 1);
    lemma_sources_len(list, n - 1);
    if i == n - 1 {
        assert(now[before.len() as int] == u);
    } else {
        law_user_sources(list, n - 1, i, u);
        let k = choose|k: int| 0 <= k < before.len() && before[k] == u;
        assert(now[k] == u);
    }
}

proof fn lemma_sources_len(list: Seq<JsonV>, n: int)
    requires
        0 <= n <= list.len(),
    ensures
        user_sources(list, n).len() <= n,
    decreases n,
{
    if n > 0 {
        lemma_sources_len(list, n - 1);
    }
}

/// Every source that is not empty is asked, and none twice.
pub proof fn law_sources_are_asked(list: Seq<Seq<char>>, n: int)
    requires
        0 <= n <= list.len(),
    ensures
        asked(list, n).no_duplicates(),
        forall|i: int| 0 <= i < n && (#[trigger] list[i]).len() > 0 ==> asked(list, n).contains(list[i]),
        forall|k: int|
            0 <= k < asked(list, n).len() ==> (#[trigger] asked(list, n)[k]).len() > 0,
    decreases n,
{
    if n > 0 {
        law_sources_are_asked(list, n - 1);
        let before = asked(list, n - 1);
        let now = asked(list, n);
        assert forall|i: int| 0 <= i < n && (#[trigger] list[i]).len() > 0 implies now.contains(
            list[i],
        ) by {
            if before.contains(list[i]) {
                let k = choose|k: int| 0 <= k < before.len() && before[k] == list[i];
                assert(now[k] == list[i]);
            } else {
                assert(i == n - 1);
                assert(now[before.len() as int] == list[i]);
            }
        }
    }
}

/// The first attempt that was a success counts.
pub proof fn law_first_success(list: Seq<Result<(), String>>, from: int, i: int)
    requires
        0 <= from <= i < list.len(),
        list[i] is Ok,
        forall|j: int| from <= j < i ==> (#[trigger] list[j]) is Err,
    ensures
        first_success(list, from) == Some(i),
    decreases i - from,
{
    if from < i {
        law_first_success(list, from + 1, i);
    }
}

/// The mark below which no rules are taken rises, and never falls.
pub proof fn law_mark_rises(version: NumberV, mark: NumberV, at: Seq<char>)
    ensures
        new_mark(version, mark, at) is Some <==> below(nothing(), version) && below(mark, version),
{
}

// -------------------------------------------------------------------------------- models

/// The key of a model is the one that is given, where that is not the mask.
pub proof fn law_secret(cfg: JsonV, cur: JsonV, mask: Seq<char>)
    ensures
        member_text(cfg, "apiKey"@) matches Some(v) && v != mask ==> secret_of(cfg, cur, mask)
            == member_text(cfg, "apiKey"@)->0,
        member_text(cfg, "apiKey"@) is None ==> secret_of(cfg, cur, mask)
            == crate::commands::fonts::true_text_or_empty(member(cur, "apiKey"@)),
{
}

/// A text of a model is the one that is given, and else stays.
pub proof fn law_set_text(cfg: JsonV, cur: JsonV, key: Seq<char>)
    ensures
        member_text(cfg, key) matches Some(t) ==> set_text(cfg, cur, key) == t,
        member(cfg, key) is None ==> set_text(cfg, cur, key) == crate::commands::fonts::true_text_or_empty(
            member(cur, key),
        ),
{
}

proof fn lemma_with_all(o: JsonV, m: Seq<(Seq<char>, JsonV)>, n: int, i: int, other: Seq<char>)
    requires
        o is Obj,
        0 <= n <= m.len(),
        forall|a: int, b: int| 0 <= a < b < m.len() ==> (#[trigger] m[a]).0 != (#[trigger] m[b]).0,
    ensures
        with_all(o, m, n) is Obj,
        0 <= i < n ==> member(with_all(o, m, n), m[i].0) == Some(m[i].1),
        (forall|k: int| 0 <= k < n ==> (#[trigger] m[k]).0 != other) ==> member(
            with_all(o, m, n),
            other,
        ) == member(o, other),
    decreases n,
{
    if n > 0 {
        lemma_with_all(o, m, n - 1, i, other);
        let before = with_all(o, m, n - 1);
        law_set_member(before, m[n - 1].0, m[n - 1].1, other);
        if 0 <= i < n - 1 {
            assert(m[i].0 != m[n - 1].0);
            law_set_member(before, m[n - 1].0, m[n - 1].1, m[i].0);
        }
    }
}

/// What is saved of a model: its address, its key, its name and prompt, how long to wait and
/// whether it is on; everything else stays.
pub proof fn law_saved_model(
    cfg: JsonV,
    cur: JsonV,
    url: Seq<char>,
    mask: Seq<char>,
    timeout: nat,
    other: Seq<char>,
)
    requires
        cur is Obj,
    ensures
        ({
            let m = merged_model(cfg, cur, url, mask, timeout);
            &&& text_member(m, "apiUrl"@) == Some(url)
            &&& text_member(m, "apiKey"@) == Some(secret_of(cfg, cur, mask))
            &&& text_member(m, "model"@) == Some(set_text(cfg, cur, "model"@))
            &&& text_member(m, "prompt"@) == Some(set_text(cfg, cur, "prompt"@))
            &&& text_member(m, "customName"@) == Some(set_text(cfg, cur, "customName"@))
            &&& member(m, "timeout"@) == Some(JsonV::Num(dec(timeout)))
            &&& member(cfg, "enabled"@) matches Some(e) ==> bool_member(m, "enabled"@) == Some(
                truthy(e),
            )
            &&& member(cfg, "enabled"@) is None ==> bool_member(m, "enabled"@) == Some(
                is_on(cur, "enabled"@),
            )
            &&& other != "apiUrl"@ && other != "apiKey"@ && other != "model"@ && other != "prompt"@
                && other != "customName"@ && other != "timeout"@ && other != "enabled"@ ==> member(
                m,
                other,
            ) == member(cur, other)
        }),
{
    lemma_model_keys();
    let p = model_patch(cfg, cur, url, mask, timeout);
    lemma_with_all(cur, p, 7, 0, other);
    lemma_with_all(cur, p, 7, 1, other);
    lemma_with_all(cur, p, 7, 2, other);
    lemma_with_all(cur, p, 7, 3, other);
    lemma_with_all(cur, p, 7, 4, other);
    lemma_with_all(cur, p, 7, 5, other);
    lemma_with_all(cur, p, 7, 6, other);
}

/// A model that has answered is confirmed and stays as it was; one that has not is neither.
pub proof fn law_confirmed(entry: JsonV, now: Seq<char>)
    requires
        entry is Obj,
    ensures
        bool_member(confirmed(entry, true, now), "verified"@) == Some(true),
        bool_member(confirmed(entry, true, now), "enabled"@) == Some(is_on(entry, "enabled"@)),
        text_member(confirmed(entry, true, now), "verifiedAt"@) == Some(now),
{
    lemma_model_keys();
    let a = with_member(entry, "verified"@, JsonV::Bool(true));
    law_set_member(entry, "verified"@, JsonV::Bool(true), "enabled"@);
    let v = JsonV::Bool(true && is_on(entry, "enabled"@));
    let b = with_member(a, "enabled"@, v);
    law_set_member(a, "enabled"@, v, "verified"@);
    law_set_member(b, "verifiedAt"@, JsonV::Str(now), "verified"@);
    law_set_member(b, "verifiedAt"@, JsonV::Str(now), "enabled"@);
}

/// What is told of a trial: that it went well exactly where the model has said something, and
/// how long it took.
pub proof fn law_trial_is_told(answer: Option<Seq<char>>, latency: int)
    ensures
        bool_member(trial_reply(answer, latency), "success"@) == Some(
            answer is Some && trimmed(answer->0).len() > 0,
        ),
        member(trial_reply(answer, latency), "latencyMs"@) == Some(JsonV::Num(signed_dec(latency))),
{
    lemma_model_keys();
    let m = trial_reply(answer, latency)->Obj_0;
    lemma_member_at(m, 0);
    lemma_member_at(m, 2);
}

/// What is told of saving a model: whether it was written, and whether the model has answered.
pub proof fn law_saving_is_told(saved: bool, answer: Option<Seq<char>>)
    ensures
        ({
            let d = member(verified_reply(saved, answer), "data"@)->0;
            &&& bool_member(verified_reply(saved, answer), "success"@) == Some(saved)
            &&& bool_member(d, "verified"@) == Some(answer is Some && trimmed(answer->0).len() > 0)
        }),
{
    lemma_model_keys();
    let m = verified_reply(saved, answer)->Obj_0;
    lemma_member_at(m, 0);
    lemma_member_at(m, 2);
    let d = m[2].1->Obj_0;
    lemma_member_at(d, 0);
}

/// A model is tried with the key and the name that are given, at the address that is.
pub proof fn law_trial_config(
    cfg: JsonV,
    base: JsonV,
    url: Seq<char>,
    mask: Seq<char>,
    timeout: nat,
)
    ensures
        text_member(trial_config(cfg, base, url, mask, timeout), "apiUrl"@) == Some(url),
        text_member(trial_config(cfg, base, url, mask, timeout), "apiKey"@) == Some(
            secret_of(cfg, base, mask),
        ),
        text_member(trial_config(cfg, base, url, mask, timeout), "model"@) == Some(
            set_text(cfg, base, "model"@),
        ),
        member(trial_config(cfg, base, url, mask, timeout), "timeout"@) == Some(
            JsonV::Num(dec(timeout)),
        ),
{
    lemma_model_keys();
    let m = trial_config(cfg, base, url, mask, timeout)->Obj_0;
    lemma_member_at(m, 0);
    lemma_member_at(m, 1);
    lemma_member_at(m, 2);
    lemma_member_at(m, 3);
}

/// The settings keep the models, and the model of a part of the program that is known.
pub proof fn law_settings_with(
    current: JsonV,
    models: JsonV,
    engines: JsonV,
    scopes: Seq<Seq<char>>,
    scope: Seq<char>,
    key: Seq<char>,
)
    requires
        current is Obj,
        engines is Obj,
    ensures
        ({
            let s = settings_with(current, models, engines, scopes, scope, key);
            &&& member(s, "models"@) == Some(models)
            &&& scopes.contains(scope) ==> member(s, "aiScopes"@) is Some && text_member(
                member(s, "aiScopes"@)->0,
                scope,
            ) == Some(key)
            &&& !scopes.contains(scope) ==> member(s, "aiScopes"@) == Some(engines)
        }),
{
    lemma_model_keys();
    let e = if scopes.contains(scope) {
        with_member(engines, scope, JsonV::Str(key))
    } else {
        engines
    };
    law_set_member(engines, scope, JsonV::Str(key), "models"@);
    law_set_member(current, "models"@, models, "aiScopes"@);
    law_set_member(with_member(current, "models"@, models), "aiScopes"@, e, "models"@);
}

} // verus!
