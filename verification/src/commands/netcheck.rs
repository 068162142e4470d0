//! The check of the network: what was found, which repairs it allows, and what is
//! answered.

use crate::commands::contextmenu::PsOutput;
use crate::commands::memory::{admin_reply, ask_admin};
use crate::commands::reply::{grant, granted, refuse, refused};
use crate::commands::rules::{doubled, ps_escape_single};
use crate::json::{array_member, member, text_member, values, Json, JsonV};
use crate::numbers::signed_dec;
use crate::slots::Slots;
use crate::text::{
    byte_len, byte_length, cat, decimal, has, occurs, pieces, replace_all, replaced_from, same,
    split, texts, trim, trimmed,
};
use crate::value::{
    bool_member, copy_json, integer, integer_of, json_in, json_told, jtext, read_json, try_json,
    whole_number, whole_of, Fields,
};
use vstd::prelude::*;

verus! {

// ---------------------------------------------------------------------------- the repairs

/// Whether a repair has a name.
pub open spec fn is_named(r: JsonV, id: Seq<char>) -> bool {
    text_member(r, "id"@) == Some(id)
}

/// The first repair with a name among the items from `i` on.
pub open spec fn main_repair(items: Seq<JsonV>, id: Seq<char>, i: int) -> Option<JsonV>
    decreases items.len() - i,
{
    if i < 0 || i >= items.len() {
        None
    } else if member(items[i], "repair"@) matches Some(r) && is_named(r, id) {
        member(items[i], "repair"@)
    } else {
        main_repair(items, id, i + 1)
    }
}

/// The first of a list of repairs with a name, from `i` on.
pub open spec fn listed_repair(list: Seq<JsonV>, id: Seq<char>, i: int) -> Option<JsonV>
    decreases list.len() - i,
{
    if i < 0 || i >= list.len() {
        None
    } else if is_named(list[i], id) {
        Some(list[i])
    } else {
        listed_repair(list, id, i + 1)
    }
}

/// The first repair with a name in the lists of the items from `i` on.
pub open spec fn other_repair(items: Seq<JsonV>, id: Seq<char>, i: int) -> Option<JsonV>
    decreases items.len() - i,
{
    if i < 0 || i >= items.len() {
        None
    } else {
        match array_member(items[i], "repairs"@) {
            Some(l) => match listed_repair(l, id, 0) {
                Some(r) => Some(r),
                None => other_repair(items, id, i + 1),
            },
            None => other_repair(items, id, i + 1),
        }
    }
}

/// The repair with a name that was found.
pub open spec fn repair_in(items: Seq<JsonV>, id: Seq<char>) -> Option<JsonV> {
    match main_repair(items, id, 0) {
        Some(r) => Some(r),
        None => other_repair(items, id, 0),
    }
}

fn has_id(r: &Json, id: &str) -> (out: bool)
    ensures
        out == is_named(r.view(), id@),
{
    match r.text("id") {
        Some(t) => same(t, id),
        None => false,
    }
}

fn find_listed(list: &Vec<Json>, id: &str) -> (out: Option<Json>)
    ensures
        match out {
            Some(r) => listed_repair(values(list@), id@, 0) == Some(r.view()),
            None => listed_repair(values(list@), id@, 0) is None,
        },
{
    let ghost lv = values(list@);
    assert(lv.len() == list@.len());
    let mut i: usize = 0;
    while i < list.len()
        invariant
            i <= list@.len(),
            lv == values(list@),
            lv.len() == list@.len(),
            listed_repair(lv, id@, 0) == listed_repair(lv, id@, i as int),
        decreases list@.len() - i,
    {
        assert(lv[i as int] == list@[i as int].view());
        if has_id(&list[i], id) {
            return Some(copy_json(&list[i]));
        }
        i += 1;
    }
    None
}

fn search_repair(items: &Vec<Json>, id: &str) -> (out: Option<Json>)
    ensures
        match out {
            Some(r) => repair_in(values(items@), id@) == Some(r.view()),
            None => repair_in(values(items@), id@) is None,
        },
{
    let ghost iv = values(items@);
    assert(iv.len() == items@.len());
    let mut i: usize = 0;
    while i < items.len()
        invariant
            i <= items@.len(),
            iv == values(items@),
            iv.len() == items@.len(),
            main_repair(iv, id@, 0) == main_repair(iv, id@, i as int),
        decreases items@.len() - i,
    {
        assert(iv[i as int] == items@[i as int].view());
        if let Some(r) = items[i].get("repair") {
            if has_id(r, id) {
                return Some(copy_json(r));
            }
        }
        i += 1;
    }
    let mut k: usize = 0;
    while k < items.len()
        invariant
            k <= items@.len(),
            iv == values(items@),
            iv.len() == items@.len(),
            main_repair(iv, id@, 0) is None,
            other_repair(iv, id@, 0) == other_repair(iv, id@, k as int),
        decreases items@.len() - k,
    {
        assert(iv[k as int] == items@[k as int].view());
        if let Some(l) = items[k].array("repairs") {
            if let Some(r) = find_listed(l, id) {
                return Some(r);
            }
        }
        k += 1;
    }
    None
}

/// What the last check of a window has found.
pub open spec fn found_by(s: Slots<Vec<Json>>, label: Seq<char>) -> Option<Seq<JsonV>> {
    if s.view().contains_key(label) {
        Some(values(s.view()[label]@))
    } else {
        None
    }
}

/// The repair with a name that the last check of a window has found.
pub open spec fn repair_of(s: Slots<Vec<Json>>, label: Seq<char>, id: Seq<char>) -> Option<JsonV> {
    match found_by(s, label) {
        Some(l) => repair_in(l, id),
        None => None,
    }
}

/// Keeps what a check of a window has found, in place of what its last one has. What the
/// checks of the other windows have found stays.
pub fn snapshot_store(snapshots: &mut Slots<Vec<Json>>, label: &str, items: Vec<Json>)
    requires
        old(snapshots).wf(),
    ensures
        final(snapshots).wf(),
        found_by(*final(snapshots), label@) == Some(values(items@)),
        forall|l: Seq<char>|
            l != label@ ==> #[trigger] found_by(*final(snapshots), l) == found_by(
                *old(snapshots),
                l,
            ),
{
    snapshots.set(label, items);
}

/// The repair with a name that the last check of a window has found.
pub fn find_repair(snapshots: &Slots<Vec<Json>>, label: &str, action_id: &str) -> (out: Option<Json>)
    requires
        snapshots.wf(),
    ensures
        match out {
            Some(r) => repair_of(*snapshots, label@, action_id@) == Some(r.view()),
            None => repair_of(*snapshots, label@, action_id@) is None,
        },
{
    match snapshots.get(label) {
        Some(items) => search_repair(items, action_id),
        None => None,
    }
}

/// The scripts of the repairs.
#[derive(Debug)]
pub struct Scripts {
    pub enable_adapter: String,
    pub reset_dns: String,
    pub start_dhcp: String,
    pub start_dnscache: String,
    pub disable_user_proxy: String,
    pub reset_winhttp: String,
}

/// A script with another text in place of a mark; otherwise why it cannot be used.
pub open spec fn marked(template: Seq<char>, mark: Seq<char>, text: Seq<char>) -> Result<
    Seq<char>,
    Seq<char>,
> {
    if !occurs(template, mark) {
        Err("修复脚本缺少哨兵"@)
    } else {
        let t = replaced_from(template, mark, text, 0);
        if occurs(t, mark) {
            Err("修复脚本哨兵替换失败"@)
        } else {
            Ok(t)
        }
    }
}

/// A script with another text in place of a mark; otherwise why it cannot be used.
pub fn replace_sentinel(template: &str, sentinel: &str, replacement: &str) -> (out: Result<
    String,
    String,
>)
    ensures
        match out {
            Ok(t) => marked(template@, sentinel@, replacement@) == Ok::<Seq<char>, Seq<char>>(t@),
            Err(m) => marked(template@, sentinel@, replacement@) == Err::<Seq<char>, Seq<char>>(
                m@,
            ),
        },
{
    let held: bool = has(template, sentinel);
    if !held {
        return Err("修复脚本缺少哨兵".to_owned());
    }
    let t: String = replace_all(template, sentinel, replacement);
    if has(t.as_str(), sentinel) {
        return Err("修复脚本哨兵替换失败".to_owned());
    }
    Ok(t)
}

/// The index of an interface that a repair names, if it is above zero.
pub open spec fn interface_of(r: JsonV) -> Option<int> {
    match member(r, "interfaceIndex"@) {
        Some(JsonV::Num(t)) => {
            let v = Some(JsonV::Num(t));
            let n = match integer_of(v) {
                Some(n) => n,
                None => whole_of(v),
            };
            if n > 0 {
                Some(n)
            } else {
                None
            }
        },
        _ => None,
    }
}

fn read_interface(r: &Json) -> (out: Option<i64>)
    ensures
        interface_of(r.view()) == (match out {
            Some(n) => Some(n as int),
            None => None,
        }),
        out matches Some(n) ==> n > 0,
{
    if let Some(v) = r.get("interfaceIndex") {
        if let Json::Num(_) = v {
            let n: i64 = match integer(Some(v)) {
                Some(n) => n,
                None => whole_number(Some(v)),
            };
            if n > 0 {
                return Some(n);
            }
        }
    }
    None
}

/// The script of a repair: only what was found goes into it; otherwise why there is none.
pub open spec fn repair_script(id: Seq<char>, r: JsonV, s: Scripts) -> Result<
    Seq<char>,
    Seq<char>,
> {
    if id == "enable-adapter"@ {
        let name = match text_member(r, "name"@) {
            Some(n) => n,
            None => Seq::empty(),
        };
        if trimmed(name).len() == 0 {
            Err("缺少网卡名（应来自检测快照）"@)
        } else {
            marked(s.enable_adapter@, "__TRIM_ADAPTER_NAME__"@, doubled(name))
        }
    } else if id == "reset-dns"@ {
        match interface_of(r) {
            Some(n) => marked(s.reset_dns@, "987654321"@, signed_dec(n)),
            None => Err("缺少接口索引（应来自检测快照）"@),
        }
    } else if id == "start-dhcp"@ {
        Ok(s.start_dhcp@)
    } else if id == "start-dnscache"@ {
        Ok(s.start_dnscache@)
    } else if id == "disable-user-proxy"@ {
        Ok(s.disable_user_proxy@)
    } else if id == "reset-winhttp"@ {
        Ok(s.reset_winhttp@)
    } else {
        Err("未知的修复动作: "@ + id)
    }
}

/// The script of a repair; otherwise why there is none.
pub fn build_repair_script(action_id: &str, repair: &Json, s: &Scripts) -> (out: Result<
    String,
    String,
>)
    ensures
        match out {
            Ok(t) => repair_script(action_id@, repair.view(), *s) == Ok::<Seq<char>, Seq<char>>(t@),
            Err(m) => repair_script(action_id@, repair.view(), *s) == Err::<Seq<char>, Seq<char>>(
                m@,
            ),
        },
{
    if same(action_id, "enable-adapter") {
        let name: String = match repair.text("name") {
            Some(n) => n.to_owned(),
            None => {
                let none: String = String::new();
                assert(none@ =~= Seq::empty());
                none
            },
        };
        if trim(name.as_str()).as_str().unicode_len() == 0 {
            return Err("缺少网卡名（应来自检测快照）".to_owned());
        }
        replace_sentinel(
            s.enable_adapter.as_str(),
            "__TRIM_ADAPTER_NAME__",
            ps_escape_single(name.as_str()).as_str(),
        )
    } else if same(action_id, "reset-dns") {
        match read_interface(repair) {
            Some(n) => {
                let t: String = decimal(n as u64);
                replace_sentinel(s.reset_dns.as_str(), "987654321", t.as_str())
            },
            None => Err("缺少接口索引（应来自检测快照）".to_owned()),
        }
    } else if same(action_id, "start-dhcp") {
        Ok(s.start_dhcp.clone())
    } else if same(action_id, "start-dnscache") {
        Ok(s.start_dnscache.clone())
    } else if same(action_id, "disable-user-proxy") {
        Ok(s.disable_user_proxy.clone())
    } else if same(action_id, "reset-winhttp") {
        Ok(s.reset_winhttp.clone())
    } else {
        Err(cat("未知的修复动作: ", action_id))
    }
}

/// Whether a repair needs an administrator.
pub open spec fn needs_admin(id: Seq<char>) -> bool {
    id == "enable-adapter"@ || id == "start-dhcp"@ || id == "start-dnscache"@ || id == "reset-dns"@
        || id == "reset-winhttp"@
}

/// How many bytes the name of a repair may take.
pub const ACTION_MAX: usize = 40;

/// The repair that is made; otherwise the reply. Only what the last check allows is made,
/// with what that check has found.
pub open spec fn allowed_repair(id: Seq<char>, items: Option<Seq<JsonV>>, admin: bool) -> Result<
    JsonV,
    JsonV,
> {
    if id.len() == 0 || byte_length(id) > ACTION_MAX {
        Err(refused("参数不合法"@))
    } else {
        let found = match items {
            Some(l) => repair_in(l, id),
            None => None,
        };
        match found {
            None => Err(refused("该修复动作不在当前检测快照内，请先重新检测"@)),
            Some(r) => if needs_admin(id) && !admin {
                Err(admin_reply("该修复动作需要管理员权限"@))
            } else {
                Ok(r)
            },
        }
    }
}

/// The repair that is made; otherwise the reply. Nothing may be repaired before this was
/// asked. Only the last check of the window that asks counts.
pub fn repair_gate(
    action_id: &str,
    snapshots: &Slots<Vec<Json>>,
    label: &str,
    admin: bool,
) -> (out: Result<Json, Json>)
    requires
        snapshots.wf(),
    ensures
        ({
            let r = allowed_repair(action_id@, found_by(*snapshots, label@), admin);
            match out {
                Ok(v) => r == Ok::<JsonV, JsonV>(v.view()),
                Err(e) => r == Err::<JsonV, JsonV>(e.view()),
            }
        }),
{
    if action_id.unicode_len() == 0 || byte_len(action_id) > ACTION_MAX as u128 {
        return Err(refuse("参数不合法"));
    }
    match find_repair(snapshots, label, action_id) {
        None => Err(refuse("该修复动作不在当前检测快照内，请先重新检测")),
        Some(r) => {
            let admin_needed: bool = same(action_id, "enable-adapter") || same(
                action_id,
                "start-dhcp",
            ) || same(action_id, "start-dnscache") || same(action_id, "reset-dns") || same(
                action_id,
                "reset-winhttp",
            );
            if admin_needed && !admin {
                Err(ask_admin("该修复动作需要管理员权限"))
            } else {
                Ok(r)
            }
        },
    }
}

// ------------------------------------------------------------------------------ the check

/// The last of the first `n` lines that looks like an object.
pub open spec fn last_object(list: Seq<Seq<char>>, n: int) -> Option<Seq<char>>
    decreases n,
{
    if n <= 0 {
        None
    } else if trimmed(list[n - 1]).len() > 0 && trimmed(list[n - 1])[0] == '{' {
        Some(trimmed(list[n - 1]))
    } else {
        last_object(list, n - 1)
    }
}

/// The last line of a text that looks like an object.
pub open spec fn object_line(text: Seq<char>) -> Option<Seq<char>> {
    let list = pieces(trimmed(text), '\n', '\n');
    last_object(list, list.len() as int)
}

fn find_object(text: &str) -> (out: Option<String>)
    ensures
        match out {
            Some(l) => object_line(text@) == Some(l@),
            None => object_line(text@) is None,
        },
{
    let list: Vec<String> = split(trim(text).as_str(), '\n', '\n');
    let ghost lv = texts(list@);
    assert(lv.len() == list@.len());
    let mut n: usize = list.len();
    while n > 0
        invariant
            n <= list@.len(),
            lv == texts(list@),
            lv.len() == list@.len(),
            lv == pieces(trimmed(text@), '\n', '\n'),
            last_object(lv, lv.len() as int) == last_object(lv, n as int),
        decreases n,
    {
        assert(lv[n - 1] == list@[n - 1]@);
        let t: String = trim(list[n - 1].as_str());
        if t.as_str().unicode_len() > 0 && t.as_str().get_char(0) == '{' {
            return Some(t);
        }
        n -= 1;
    }
    None
}

/// What a check by script has found; otherwise why there is nothing.
pub open spec fn check_found(o: PsOutput) -> Result<JsonV, Seq<char>> {
    if trimmed(o.stdout@).len() == 0 {
        Err(
            if trimmed(o.stderr@).len() == 0 {
                "网络检测无输出"@
            } else {
                trimmed(o.stderr@)
            },
        )
    } else {
        match object_line(o.stdout@) {
            None => Err("网络检测结果格式异常"@),
            Some(l) => match json_told(l) {
                Err(m) => Err("网络检测解析失败: "@ + m),
                Ok(d) => if array_member(d, "items"@) is Some {
                    Ok(d)
                } else {
                    Err("网络检测结果格式异常"@)
                },
            },
        }
    }
}

/// What a check by script has found; otherwise why there is nothing.
pub fn collect_output(o: &PsOutput) -> (out: Result<Json, String>)
    ensures
        match out {
            Ok(d) => check_found(*o) == Ok::<JsonV, Seq<char>>(d.view()),
            Err(m) => check_found(*o) == Err::<JsonV, Seq<char>>(m@),
        },
{
    if trim(o.stdout.as_str()).as_str().unicode_len() == 0 {
        let e: String = trim(o.stderr.as_str());
        return if e.as_str().unicode_len() == 0 {
            Err("网络检测无输出".to_owned())
        } else {
            Err(e)
        };
    }
    match find_object(o.stdout.as_str()) {
        None => Err("网络检测结果格式异常".to_owned()),
        Some(l) => match try_json(l.as_str()) {
            Err(m) => Err(cat("网络检测解析失败: ", m.as_str())),
            Ok(d) => if d.array("items").is_some() {
                Ok(d)
            } else {
                Err("网络检测结果格式异常".to_owned())
            },
        },
    }
}

/// The reply to a check.
pub fn collect_reply(found: Result<Json, String>) -> (out: Json)
    ensures
        out.view() == (match found {
            Ok(d) => granted(d.view()),
            Err(m) => refused(m@),
        }),
{
    match found {
        Ok(d) => grant(d),
        Err(m) => refuse(m.as_str()),
    }
}

// ----------------------------------------------------------------------------- the outcome

/// What is told of a repair that did not succeed.
pub open spec fn not_fixed(message: Seq<char>) -> JsonV {
    JsonV::Obj(seq![("ok"@, JsonV::Bool(false)), ("message"@, JsonV::Str(message))])
}

/// What is told of a repair that did not succeed.
pub fn fail_fix(message: &str) -> (out: Json)
    ensures
        out.view() == not_fixed(message@),
{
    let f: Fields = Fields::new().with("ok", Json::Bool(false)).with("message", jtext(message));
    assert(f.view() =~= not_fixed(message@)->Obj_0);
    f.object()
}

/// What a repair by script tells.
pub open spec fn script_fix(o: PsOutput) -> JsonV {
    let none = not_fixed(
        if trimmed(o.stderr@).len() == 0 {
            "修复无输出"@
        } else {
            trimmed(o.stderr@)
        },
    );
    match object_line(o.stdout@) {
        Some(l) => match json_in(l) {
            Some(d) => d,
            None => none,
        },
        None => none,
    }
}

/// What a repair by script tells.
pub fn repair_output(o: &PsOutput) -> (out: Json)
    ensures
        out.view() == script_fix(*o),
{
    if let Some(l) = find_object(o.stdout.as_str()) {
        if let Some(d) = read_json(l.as_str()) {
            return d;
        }
    }
    let e: String = trim(o.stderr.as_str());
    if e.as_str().unicode_len() == 0 {
        fail_fix("修复无输出")
    } else {
        fail_fix(e.as_str())
    }
}

/// Whether a repair says that it succeeded.
pub open spec fn is_fixed(fix: JsonV) -> bool {
    bool_member(fix, "ok"@) == Some(true)
}

/// What a repair without a script tells: what it says itself where it succeeded, else why
/// not.
pub open spec fn native_fix(told: Result<JsonV, Seq<char>>) -> JsonV {
    match told {
        Ok(f) => if is_fixed(f) {
            f
        } else {
            not_fixed(
                "原生修复未成功（设 TRIM_LEGACY_NETCHECK=1 可回退 PS）: "@ + match text_member(
                    f,
                    "message"@,
                ) {
                    Some(m) => m,
                    None => Seq::empty(),
                },
            )
        },
        Err(e) => not_fixed("原生修复异常（设 TRIM_LEGACY_NETCHECK=1 可回退 PS）: "@ + e),
    }
}

/// What a repair without a script tells.
pub fn native_output(told: Result<Json, String>) -> (out: Json)
    ensures
        out.view() == native_fix(
            match told {
                Ok(f) => Ok(f.view()),
                Err(e) => Err(e@),
            },
        ),
{
    match told {
        Ok(f) => {
            let ok: bool = match f.flag("ok") {
                Some(b) => b,
                None => false,
            };
            if ok {
                f
            } else {
                let m: String = match f.text("message") {
                    Some(m) => m.to_owned(),
                    None => {
                        let none: String = String::new();
                        assert(none@ =~= Seq::empty());
                        none
                    },
                };
                fail_fix(
                    cat(
                        "原生修复未成功（设 TRIM_LEGACY_NETCHECK=1 可回退 PS）: ",
                        m.as_str(),
                    ).as_str(),
                )
            }
        },
        Err(e) => fail_fix(
            cat("原生修复异常（设 TRIM_LEGACY_NETCHECK=1 可回退 PS）: ", e.as_str()).as_str(),
        ),
    }
}

/// The reply to a repair, with what a new check has found.
pub open spec fn repair_reply(fix: JsonV, check: Option<JsonV>) -> JsonV {
    JsonV::Obj(
        seq![
            ("success"@, JsonV::Bool(is_fixed(fix))),
            ("fix"@, fix),
            (
                "items"@,
                match check {
                    Some(d) => match member(d, "items"@) {
                        Some(l) => l,
                        None => JsonV::Null,
                    },
                    None => JsonV::Null,
                },
            ),
            (
                "message"@,
                match member(fix, "message"@) {
                    Some(m) => m,
                    None => JsonV::Null,
                },
            ),
        ],
    )
}

/// The reply to a repair, with what a new check has found.
pub fn finish_repair(fix: Json, check: &Option<Json>) -> (out: Json)
    ensures
        out.view() == repair_reply(
            fix.view(),
            match check {
                Some(d) => Some(d.view()),
                None => None,
            },
        ),
{
    let ok: bool = match fix.flag("ok") {
        Some(b) => b,
        None => false,
    };
    let items: Json = match check {
        Some(d) => match d.get("items") {
            Some(l) => copy_json(l),
            None => Json::Null,
        },
        None => Json::Null,
    };
    let message: Json = match fix.get("message") {
        Some(m) => copy_json(m),
        None => Json::Null,
    };
    let ghost fv = fix.view();
    let f: Fields = Fields::new().with("success", Json::Bool(ok)).with("fix", fix).with(
        "items",
        items,
    ).with("message", message);
    assert(f.view() =~= repair_reply(
        fv,
        match check {
            Some(d) => Some(d.view()),
            None => None,
        },
    )->Obj_0);
    f.object()
}

// ------------------------------------------------------------------------------------ laws

/// A repair that the last check does not allow is never made.
pub proof fn law_only_found_repairs(id: Seq<char>, items: Seq<JsonV>, admin: bool)
    requires
        repair_in(items, id) is None,
    ensures
        allowed_repair(id, Some(items), admin) is Err,
{
}

/// A script that is used no longer holds the mark.
pub proof fn law_mark_is_gone(template: Seq<char>, mark: Seq<char>, text: Seq<char>)
    requires
        marked(template, mark, text) is Ok,
    ensures
        !occurs(marked(template, mark, text)->Ok_0, mark),
{
}

/// An action that is not one of the six has no script.
pub proof fn law_unknown_action_has_no_script(id: Seq<char>, r: JsonV, s: Scripts)
    requires
        id != "enable-adapter"@,
        id != "reset-dns"@,
        id != "start-dhcp"@,
        id != "start-dnscache"@,
        id != "disable-user-proxy"@,
        id != "reset-winhttp"@,
    ensures
        repair_script(id, r, s) is Err,
{
}

} // verus!
