//! The context menu: what a scan has found, which of it may be changed, and what is
//! answered.

use crate::commands::cleanup_execute::add64;
use crate::commands::reply::{grant, granted, refuse, refused};
use crate::commands::rules::{doubled, ps_escape_single, replaced_once, sub_once};
use crate::deletable::{long_path, to_long_path};
use crate::json::{
    array_member, first_member, lemma_view_arr, lemma_view_obj, member, members, text_member,
    values, Json, JsonV,
};
use crate::numbers::{clamp64, signed_dec};
use crate::protect::{
    is_protected_norm, lexically_normalize, normal_path, protected_norm, ProtectRoots, Roots,
};
use crate::text::{
    behind, cat, cat3, chars_of, dec, decimal, has, lines, lines_in, listed, lowercase, occurs,
    replace_all, replace_char, replaced, replaced_from, same, skip_chars, starts_with, strip_front,
    string_of, texts, trim, trim_trailing, trimmed, uppercase, utf8_width, without_trailing,
};
use crate::value::{
    bool_member, copy_json, integer, integer_of, jarray, jint, json_in, json_out, jtext,
    lemma_values_push, put, read_json, set_member, with_member, write_json, Fields,
};
use vstd::prelude::*;

verus! {

// ------------------------------------------------------------------- what was found

/// How long the name of an entry may be.
pub const ID_MAX: usize = 160;

/// The entries of the first `n` items by their names.
pub open spec fn by_id(items: Seq<JsonV>, n: int) -> Seq<(Seq<char>, JsonV)>
    decreases n,
{
    if n <= 0 {
        Seq::empty()
    } else {
        match text_member(items[n - 1], "id"@) {
            Some(id) => if id.len() <= ID_MAX {
                put(by_id(items, n - 1), id, items[n - 1])
            } else {
                by_id(items, n - 1)
            },
            None => by_id(items, n - 1),
        }
    }
}

/// What a scan has found: the items by their names, as an object.
pub fn snapshot_by_id(items: &Vec<Json>) -> (out: Json)
    ensures
        out.view() == JsonV::Obj(by_id(values(items@), items@.len() as int)),
{
    let ghost iv = values(items@);
    let empty: Vec<(String, Json)> = Vec::new();
    let mut out: Json = Json::Obj(empty);
    let mut i: usize = 0;
    proof {
        lemma_view_obj(empty);
        assert(members(empty@) =~= Seq::empty());
    }
    while i < items.len()
        invariant
            i <= items@.len(),
            iv == values(items@),
            out.view() == JsonV::Obj(by_id(iv, i as int)),
        decreases items@.len() - i,
    {
        assert(iv[i as int] == items@[i as int].view());
        if let Some(id) = items[i].text("id") {
            if id.unicode_len() <= ID_MAX {
                out = set_member(out, id, copy_json(&items[i]));
            }
        }
        i += 1;
    }
    out
}

/// Whether all of the first `n` items say where they are really written.
pub open spec fn all_native(items: Seq<JsonV>, n: int) -> bool {
    forall|i: int| 0 <= i < n ==> text_member(#[trigger] items[i], "nativeRegPath"@) is Some
}

/// The items that were kept of an earlier scan, if they can be used.
pub open spec fn kept_items(v: JsonV) -> Option<Seq<JsonV>> {
    match array_member(v, "data"@) {
        Some(a) => if a.len() > 0 && all_native(a, a.len() as int) {
            Some(a)
        } else {
            None
        },
        None => None,
    }
}

/// The items that were kept of an earlier scan, if they can be used.
pub fn load_cache(v: &Json) -> (out: Option<&Vec<Json>>)
    ensures
        match out {
            Some(a) => kept_items(v.view()) == Some(values(a@)),
            None => kept_items(v.view()) is None,
        },
{
    match v.array("data") {
        Some(a) => {
            let ghost av = values(a@);
            assert(av.len() == a@.len());
            if a.len() == 0 {
                return None;
            }
            let mut i: usize = 0;
            while i < a.len()
                invariant
                    i <= a@.len(),
                    av == values(a@),
                    av.len() == a@.len(),
                    array_member(v.view(), "data"@) == Some(av),
                    all_native(av, i as int),
                decreases a@.len() - i,
            {
                assert(av[i as int] == a@[i as int].view());
                if a[i].text("nativeRegPath").is_none() {
                    assert(!all_native(av, av.len() as int));
                    return None;
                }
                i += 1;
            }
            Some(a)
        },
        None => None,
    }
}

/// A text member, or nothing.
pub open spec fn text_or_empty(v: JsonV, key: Seq<char>) -> Seq<char> {
    match text_member(v, key) {
        Some(t) => t,
        None => Seq::empty(),
    }
}

fn own_text(v: &Json, key: &str) -> (out: String)
    ensures
        out@ == text_or_empty(v.view(), key@),
{
    match v.text(key) {
        Some(t) => t.to_owned(),
        None => {
            let none: String = String::new();
            assert(none@ =~= Seq::empty());
            none
        },
    }
}

/// The name that an item is given where it has none: where it is written and what it
/// belongs to, since several items can be written in one place.
pub open spec fn id_for(it: JsonV, index: nat) -> Seq<char> {
    let target = text_or_empty(it, "target"@);
    let reg = text_or_empty(it, "regPath"@);
    if target.len() > 0 && reg.len() > 0 {
        reg + "|"@ + target
    } else if reg.len() > 0 {
        reg
    } else {
        dec(index)
    }
}

/// An item that has a name.
pub open spec fn named_item(it: JsonV, index: nat) -> JsonV {
    if text_member(it, "id"@) is Some {
        it
    } else {
        with_member(it, "id"@, JsonV::Str(id_for(it, index)))
    }
}

/// Items that have names.
pub open spec fn named_items(items: Seq<JsonV>) -> Seq<JsonV> {
    Seq::new(items.len(), |i: int| named_item(items[i], i as nat))
}

fn name_item(it: Json, index: usize) -> (out: Json)
    ensures
        out.view() == named_item(it.view(), index as nat),
{
    if it.text("id").is_some() {
        return it;
    }
    let target: String = own_text(&it, "target");
    let reg: String = own_text(&it, "regPath");
    let id: String = if target.as_str().unicode_len() > 0 && reg.as_str().unicode_len() > 0 {
        cat3(reg.as_str(), "|", target.as_str())
    } else if reg.as_str().unicode_len() > 0 {
        reg
    } else {
        decimal(index as u64)
    };
    set_member(it, "id", jtext(id.as_str()))
}

/// Gives a name to every item that has none.
pub fn normalize_ids(items: &Vec<Json>) -> (out: Vec<Json>)
    ensures
        values(out@) == named_items(values(items@)),
{
    let mut out: Vec<Json> = Vec::new();
    let mut i: usize = 0;
    while i < items.len()
        invariant
            i <= items@.len(),
            out@.len() == i,
            forall|k: int|
                0 <= k < i ==> (#[trigger] out@[k]).view() == named_item(items@[k].view(), k as nat),
        decreases items@.len() - i,
    {
        out.push(name_item(copy_json(&items[i]), i));
        i += 1;
    }
    assert(values(out@) =~= named_items(values(items@)));
    out
}

// --------------------------------------------------------------- what may be changed

/// What two texts for the same path have in common.
pub open spec fn key_of(p: Seq<char>) -> Seq<char> {
    lowercase(without_trailing(replaced(p, '/', '\\'), '\\', '\\'))
}

/// What two texts for the same path have in common.
pub fn path_key(p: &str) -> (out: String)
    ensures
        out@ == key_of(p@),
{
    trim_trailing(replace_char(p, '/', '\\').as_str(), '\\', '\\').to_lowercase()
}

/// Whether two items with a path name the same one.
pub open spec fn same_place(a: JsonV, b: JsonV) -> bool {
    match (text_member(a, "path"@), text_member(b, "path"@)) {
        (Some(p), Some(q)) => key_of(p) == key_of(q),
        _ => true,
    }
}

/// The item that was found under the name that an item gives.
pub open spec fn vouched(it: JsonV, snap: JsonV) -> Option<JsonV> {
    match text_member(it, "id"@) {
        Some(id) => match member(snap, id) {
            Some(known) => if same_place(it, known) {
                Some(known)
            } else {
                None
            },
            None => None,
        },
        None => None,
    }
}

/// What was found under the names of the first `n` items, if all of them were found.
pub open spec fn all_vouched(items: Seq<JsonV>, snap: JsonV, n: int) -> Option<Seq<JsonV>>
    decreases n,
{
    if n <= 0 {
        Some(Seq::empty())
    } else {
        match (all_vouched(items, snap, n - 1), vouched(items[n - 1], snap)) {
            (Some(before), Some(k)) => Some(before.push(k)),
            _ => None,
        }
    }
}

/// How many items one request may hold.
pub const ITEMS_MAX: usize = 500;

/// The items of a request as they were found; only their names are taken from the
/// request.
pub open spec fn valid_items(items: Seq<JsonV>, snap: JsonV) -> Option<Seq<JsonV>> {
    if items.len() == 0 || items.len() > ITEMS_MAX {
        None
    } else {
        all_vouched(items, snap, items.len() as int)
    }
}

fn vouch(it: &Json, snap: &Json) -> (out: Option<Json>)
    ensures
        match out {
            Some(k) => vouched(it.view(), snap.view()) == Some(k.view()),
            None => vouched(it.view(), snap.view()) is None,
        },
{
    let id: &str = match it.text("id") {
        Some(id) => id,
        None => {
            return None;
        },
    };
    match snap.get(id) {
        Some(known) => {
            if let Some(p) = it.text("path") {
                if let Some(q) = known.text("path") {
                    let a: String = path_key(p);
                    let b: String = path_key(q);
                    if !same(a.as_str(), b.as_str()) {
                        return None;
                    }
                }
            }
            Some(copy_json(known))
        },
        None => None,
    }
}

proof fn lemma_not_vouched(items: Seq<JsonV>, snap: JsonV, i: int, n: int)
    requires
        all_vouched(items, snap, i) is None,
        i <= n,
    ensures
        all_vouched(items, snap, n) is None,
    decreases n - i,
{
    if i < n {
        lemma_not_vouched(items, snap, i, n - 1);
    }
}

/// The items of a request as they were found; none where one of them was not found.
pub fn validate_snapshot_items(items: &Vec<Json>, snap: &Json) -> (out: Option<Vec<Json>>)
    ensures
        match out {
            Some(v) => valid_items(values(items@), snap.view()) == Some(values(v@)),
            None => valid_items(values(items@), snap.view()) is None,
        },
{
    let ghost iv = values(items@);
    assert(iv.len() == items@.len());
    if items.len() == 0 || items.len() > ITEMS_MAX {
        return None;
    }
    let mut out: Vec<Json> = Vec::new();
    let mut i: usize = 0;
    assert(values(out@) =~= Seq::empty());
    while i < items.len()
        invariant
            i <= items@.len(),
            iv == values(items@),
            iv.len() == items@.len(),
            0 < iv.len() <= ITEMS_MAX,
            all_vouched(iv, snap.view(), i as int) == Some(values(out@)),
        decreases items@.len() - i,
    {
        assert(iv[i as int] == items@[i as int].view());
        match vouch(&items[i], snap) {
            Some(k) => {
                proof {
                    lemma_values_push(out@, k);
                }
                out.push(k);
            },
            None => {
                proof {
                    lemma_not_vouched(iv, snap.view(), i + 1, iv.len() as int);
                }
                return None;
            },
        }
        i += 1;
    }
    Some(out)
}

/// Where an item is really written.
pub open spec fn written_at(it: JsonV) -> Seq<char> {
    match member(it, "nativeRegPath"@) {
        Some(JsonV::Str(t)) => t,
        Some(_) => Seq::empty(),
        None => text_or_empty(it, "regPath"@),
    }
}

/// Whether a place belongs to the whole machine.
pub open spec fn machine_wide(p: Seq<char>) -> bool {
    let u = uppercase(p);
    "HKEY_LOCAL_MACHINE\\"@.is_prefix_of(u) || "HKEY_CLASSES_ROOT\\"@.is_prefix_of(u)
        || "HKLM\\"@.is_prefix_of(u) || "HKCR\\"@.is_prefix_of(u)
}

/// Whether only an administrator may change an item.
pub open spec fn needs_admin(it: JsonV) -> bool {
    text_member(it, "blockedBy"@) == Some("machine"@) || machine_wide(written_at(it))
}

/// Whether only an administrator may change an item.
pub fn write_needs_admin(item: &Json) -> (out: bool)
    ensures
        out == needs_admin(item.view()),
{
    if let Some(b) = item.text("blockedBy") {
        if same(b, "machine") {
            return true;
        }
    }
    let p: String = match item.get("nativeRegPath") {
        Some(v) => match v.as_str() {
            Some(t) => t.to_owned(),
            None => {
                let none: String = String::new();
                assert(none@ =~= Seq::empty());
                none
            },
        },
        None => own_text(item, "regPath"),
    };
    assert(p@ == written_at(item.view()));
    let u: String = p.to_uppercase();
    starts_with(u.as_str(), "HKEY_LOCAL_MACHINE\\") || starts_with(
        u.as_str(),
        "HKEY_CLASSES_ROOT\\",
    ) || starts_with(u.as_str(), "HKLM\\") || starts_with(u.as_str(), "HKCR\\")
}

/// Whether an administrator is needed for one of the items.
pub open spec fn any_needs_admin(items: Seq<JsonV>) -> bool {
    exists|i: int| 0 <= i < items.len() && needs_admin(#[trigger] items[i])
}

fn find_admin(items: &Vec<Json>) -> (out: bool)
    ensures
        out == any_needs_admin(values(items@)),
{
    let ghost iv = values(items@);
    let mut i: usize = 0;
    while i < items.len()
        invariant
            i <= items@.len(),
            iv == values(items@),
            forall|k: int| 0 <= k < i ==> !needs_admin(#[trigger] iv[k]),
        decreases items@.len() - i,
    {
        assert(iv[i as int] == items@[i as int].view());
        if write_needs_admin(&items[i]) {
            return true;
        }
        i += 1;
    }
    assert(iv.len() == items@.len());
    false
}

/// Whether an item is a file and not in the registry.
pub open spec fn from_file(it: JsonV) -> bool {
    text_member(it, "source"@) == Some("filesystem"@) || text_member(it, "source"@) == Some("winx"@)
}

/// Whether an item is a file and not in the registry.
pub fn is_file_source(item: &Json) -> (out: bool)
    ensures
        out == from_file(item.view()),
{
    match item.text("source") {
        Some(s) => same(s, "filesystem") || same(s, "winx"),
        None => false,
    }
}

/// The reply that an administrator is needed.
pub open spec fn admin_needed(message: Seq<char>) -> JsonV {
    JsonV::Obj(
        seq![
            ("success"@, JsonV::Bool(false)),
            ("needAdmin"@, JsonV::Bool(true)),
            ("message"@, JsonV::Str(message)),
        ],
    )
}

fn ask_admin(message: &str) -> (out: Json)
    ensures
        out.view() == admin_needed(message@),
{
    let f: Fields = Fields::new().with("success", Json::Bool(false)).with(
        "needAdmin",
        Json::Bool(true),
    ).with("message", jtext(message));
    assert(f.view() =~= admin_needed(message@)->Obj_0);
    f.object()
}

/// The reply where a backup is to be restored without an administrator.
pub fn restore_admin_gate(is_admin: bool) -> (out: Option<Json>)
    ensures
        match out {
            Some(r) => !is_admin && r.view() == admin_needed(
                "恢复右键菜单备份需要管理员权限（备份内可能含机器级项），请先提权再试"@,
            ),
            None => is_admin,
        },
{
    if is_admin {
        None
    } else {
        Some(ask_admin("恢复右键菜单备份需要管理员权限（备份内可能含机器级项），请先提权再试"))
    }
}

// ------------------------------------------------------------------------------ scripts

/// A script with items in the place that is left for them.
pub open spec fn with_items(template: Seq<char>, items: Seq<JsonV>) -> Seq<char> {
    replaced_from(
        template,
        "[\"__TRIM_ITEMS_JSON__\"]"@,
        doubled(json_out(JsonV::Arr(items))),
        0,
    )
}

/// A script with items in the place that is left for them.
pub fn inject_items(template: &str, items: Vec<Json>) -> (out: String)
    ensures
        out@ == with_items(template@, values(items@)),
{
    proof {
        lemma_view_arr(items);
    }
    let v: Json = Json::Arr(items);
    let text: String = write_json(&v);
    replace_all(
        template,
        "[\"__TRIM_ITEMS_JSON__\"]",
        ps_escape_single(text.as_str()).as_str(),
    )
}

/// Whether a line looks like a value with parts.
pub open spec fn looks_like_value(line: Seq<char>) -> bool {
    let t = trimmed(line);
    t.len() > 0 && (t[0] == '{' || t[0] == '[')
}

/// The last of the first `n` lines that looks like a value with parts.
pub open spec fn last_value_line(list: Seq<Seq<char>>, n: int) -> Option<Seq<char>>
    decreases n,
{
    if n <= 0 {
        None
    } else if looks_like_value(list[n - 1]) {
        Some(trimmed(list[n - 1]))
    } else {
        last_value_line(list, n - 1)
    }
}

/// The value in the last line of what a script has written.
pub open spec fn last_json(stdout: Seq<char>) -> Option<JsonV> {
    let list = lines_in(trimmed(stdout));
    match last_value_line(list, list.len() as int) {
        Some(l) => json_in(l),
        None => None,
    }
}

/// The value in the last line of what a script has written.
pub fn parse_last_json(stdout: &str) -> (out: Option<Json>)
    ensures
        match out {
            Some(v) => last_json(stdout@) == Some(v.view()),
            None => last_json(stdout@) is None,
        },
{
    let list: Vec<String> = lines(trim(stdout).as_str());
    let ghost lv = texts(list@);
    assert(lv.len() == list@.len());
    let mut n: usize = list.len();
    while n > 0
        invariant
            n <= list@.len(),
            lv == texts(list@),
            lv.len() == list@.len(),
            lv == lines_in(trimmed(stdout@)),
            last_value_line(lv, lv.len() as int) == last_value_line(lv, n as int),
        decreases n,
    {
        assert(lv[n - 1] == list@[n - 1]@);
        let t: String = trim(list[n - 1].as_str());
        if t.as_str().unicode_len() > 0 {
            let c: char = t.as_str().get_char(0);
            if c == '{' || c == '[' {
                return read_json(t.as_str());
            }
        }
        n -= 1;
    }
    None
}

/// What a script has left: its code, whether it took too long, and what it has written.
#[derive(Debug)]
pub struct PsOutput {
    pub code: i32,
    pub timed_out: bool,
    pub stdout: String,
    pub stderr: String,
}

// -------------------------------------------------------------------------- the scan

/// What a scan by script has found; otherwise why there is nothing.
pub open spec fn script_found(o: PsOutput) -> Result<Seq<JsonV>, Seq<char>> {
    if o.timed_out {
        Err("扫描超时（超过 60 秒），请稍后重试或关闭其他占用注册表的程序"@)
    } else if o.code != 0 {
        Err(
            if o.stderr@.len() == 0 {
                "扫描失败"@
            } else {
                o.stderr@
            },
        )
    } else {
        match last_json(o.stdout@) {
            Some(JsonV::Arr(a)) => Ok(a),
            _ => Err("解析失败"@),
        }
    }
}

/// What a scan by script has found; otherwise the reply.
pub fn scan_output(o: &PsOutput) -> (out: Result<Vec<Json>, Json>)
    ensures
        match out {
            Ok(v) => script_found(*o) == Ok::<Seq<JsonV>, Seq<char>>(values(v@)),
            Err(r) => script_found(*o) matches Err(m) && r.view() == refused(m),
        },
{
    if o.timed_out {
        return Err(refuse("扫描超时（超过 60 秒），请稍后重试或关闭其他占用注册表的程序"));
    }
    if o.code != 0 {
        return if o.stderr.as_str().unicode_len() == 0 {
            Err(refuse("扫描失败"))
        } else {
            Err(refuse(o.stderr.as_str()))
        };
    }
    match parse_last_json(o.stdout.as_str()) {
        Some(Json::Arr(a)) => {
            proof {
                lemma_view_arr(a);
            }
            Ok(a)
        },
        _ => Err(refuse("解析失败")),
    }
}

/// What is kept of a scan.
pub open spec fn cache_value(now: int, items: Seq<JsonV>) -> JsonV {
    JsonV::Obj(seq![("timestamp"@, JsonV::Num(signed_dec(now))), ("data"@, JsonV::Arr(items))])
}

/// What is kept of a scan made at a moment.
pub fn make_cache(now: i64, items: Vec<Json>) -> (out: Json)
    ensures
        out.view() == cache_value(now as int, values(items@)),
{
    let ghost iv = values(items@);
    let f: Fields = Fields::new().with("timestamp", jint(now)).with("data", jarray(items));
    assert(f.view() =~= cache_value(now as int, iv)->Obj_0);
    f.object()
}

/// The reply with what was kept of an earlier scan.
pub open spec fn cached_reply(items: Seq<JsonV>, at: int) -> JsonV {
    JsonV::Obj(
        seq![
            ("success"@, JsonV::Bool(true)),
            ("data"@, JsonV::Arr(items)),
            ("cached"@, JsonV::Bool(true)),
            ("cachedAt"@, JsonV::Num(signed_dec(at))),
        ],
    )
}

/// The reply with what was kept of an earlier scan and what is found by that, if it can
/// be used and says when it was made.
pub fn answer_from_cache(refresh: Option<bool>, v: &Json) -> (out: Option<(Json, Json)>)
    ensures
        match out {
            Some(r) => refresh != Some(true) && (kept_items(v.view()) matches Some(a) && (
            integer_of(member(v.view(), "timestamp"@)) matches Some(t) && r.0.view() == cached_reply(
                a,
                t,
            ) && r.1.view() == JsonV::Obj(by_id(a, a.len() as int)))),
            None => refresh == Some(true) || kept_items(v.view()) is None || integer_of(
                member(v.view(), "timestamp"@),
            ) is None,
        },
{
    if let Some(true) = refresh {
        return None;
    }
    let a: &Vec<Json> = match load_cache(v) {
        Some(a) => a,
        None => {
            return None;
        },
    };
    let t: i64 = match integer(v.get("timestamp")) {
        Some(t) => t,
        None => {
            return None;
        },
    };
    let ghost av = values(a@);
    assert(av.len() == a@.len());
    let snap: Json = snapshot_by_id(a);
    let f: Fields = Fields::new().with("success", Json::Bool(true)).with(
        "data",
        jarray(crate::value::copy_items(a)),
    ).with("cached", Json::Bool(true)).with("cachedAt", jint(t));
    assert(f.view() =~= cached_reply(av, t as int)->Obj_0);
    Some((f.object(), snap))
}

// ------------------------------------------------------------------ what may be asked for

/// The items of a request as they were found; otherwise why it is refused.
pub open spec fn checked_items(
    items: Seq<JsonV>,
    snap: Option<JsonV>,
    message: Seq<char>,
) -> Result<Seq<JsonV>, JsonV> {
    match snap {
        Some(s) => match valid_items(items, s) {
            Some(v) => Ok(v),
            None => Err(refused(message)),
        },
        None => Err(refused(message)),
    }
}

fn check_items(items: &Vec<Json>, snap: Option<&Json>, message: &str) -> (out: Result<
    Vec<Json>,
    Json,
>)
    ensures
        ({
            let r = checked_items(
                values(items@),
                match snap {
                    Some(s) => Some(s.view()),
                    None => None,
                },
                message@,
            );
            match out {
                Ok(v) => r == Ok::<Seq<JsonV>, JsonV>(values(v@)),
                Err(e) => r == Err::<Seq<JsonV>, JsonV>(e.view()),
            }
        }),
{
    match snap {
        Some(s) => match validate_snapshot_items(items, s) {
            Some(v) => Ok(v),
            None => Err(refuse(message)),
        },
        None => Err(refuse(message)),
    }
}

/// Whether all items say where they are.
pub open spec fn all_placed(items: Seq<JsonV>) -> bool {
    forall|i: int| 0 <= i < items.len() ==> text_member(#[trigger] items[i], "regPath"@) is Some
}

/// The items that are backed up; otherwise the reply.
pub open spec fn backup_items(items: Seq<JsonV>, snap: Option<JsonV>) -> Result<Seq<JsonV>, JsonV> {
    match checked_items(items, snap, "备份项不是最近一次扫描结果，已拒绝执行"@) {
        Ok(v) => if all_placed(v) {
            Ok(v)
        } else {
            Err(refused("备份项缺少注册表/文件路径，已停止"@))
        },
        Err(r) => Err(r),
    }
}

/// The items that are backed up; otherwise the reply.
pub fn backup_gate(items: &Vec<Json>, snap: Option<&Json>) -> (out: Result<Vec<Json>, Json>)
    ensures
        ({
            let r = backup_items(
                values(items@),
                match snap {
                    Some(s) => Some(s.view()),
                    None => None,
                },
            );
            match out {
                Ok(v) => r == Ok::<Seq<JsonV>, JsonV>(values(v@)),
                Err(e) => r == Err::<Seq<JsonV>, JsonV>(e.view()),
            }
        }),
{
    let safe: Vec<Json> = match check_items(
        items,
        snap,
        "备份项不是最近一次扫描结果，已拒绝执行",
    ) {
        Ok(v) => v,
        Err(r) => {
            return Err(r);
        },
    };
    let ghost sv = values(safe@);
    assert(sv.len() == safe@.len());
    let mut i: usize = 0;
    while i < safe.len()
        invariant
            i <= safe@.len(),
            sv == values(safe@),
            sv.len() == safe@.len(),
            forall|k: int| 0 <= k < i ==> text_member(#[trigger] sv[k], "regPath"@) is Some,
            checked_items(
                values(items@),
                match snap {
                    Some(s) => Some(s.view()),
                    None => None,
                },
                "备份项不是最近一次扫描结果，已拒绝执行"@,
            ) == Ok::<Seq<JsonV>, JsonV>(sv),
        decreases safe@.len() - i,
    {
        assert(sv[i as int] == safe@[i as int].view());
        if safe[i].text("regPath").is_none() {
            assert(!all_placed(sv));
            return Err(refuse("备份项缺少注册表/文件路径，已停止"));
        }
        i += 1;
    }
    Ok(safe)
}

/// A whole number member, or zero.
pub open spec fn count_or_zero(v: JsonV, key: Seq<char>) -> int {
    match integer_of(member(v, key)) {
        Some(n) => n,
        None => 0,
    }
}

fn own_count(v: &Json, key: &str) -> (out: i64)
    ensures
        out == count_or_zero(v.view(), key@),
{
    match integer(v.get(key)) {
        Some(n) => n,
        None => 0,
    }
}

/// The reply to a backup. One item that could not be backed up makes it fail.
pub open spec fn backup_reply(code: i32, stdout: Seq<char>) -> JsonV {
    if code != 0 {
        refused("备份失败"@)
    } else {
        match last_json(stdout) {
            None => refused("解析备份结果失败"@),
            Some(d) => if text_member(d, "backupDir"@) is None || count_or_zero(d, "count"@) < 1 {
                refused("备份未生成有效文件"@)
            } else if count_or_zero(d, "failed"@) > 0 {
                refused(
                    "有 "@ + signed_dec(count_or_zero(d, "failed"@))
                        + " 项未能生成有效备份（无法归位到真实注册表 hive），已停止删除"@,
                )
            } else {
                granted(d)
            },
        }
    }
}

/// The reply to a backup.
pub fn backup_result(code: i32, stdout: &str) -> (out: Json)
    ensures
        out.view() == backup_reply(code, stdout@),
{
    if code != 0 {
        return refuse("备份失败");
    }
    let d: Json = match parse_last_json(stdout) {
        Some(d) => d,
        None => {
            return refuse("解析备份结果失败");
        },
    };
    if d.text("backupDir").is_none() || own_count(&d, "count") < 1 {
        return refuse("备份未生成有效文件");
    }
    let failed: i64 = own_count(&d, "failed");
    if failed > 0 {
        let n: String = decimal(failed as u64);
        return refuse(
            cat3(
                "有 ",
                n.as_str(),
                " 项未能生成有效备份（无法归位到真实注册表 hive），已停止删除",
            ).as_str(),
        );
    }
    grant(d)
}

// ------------------------------------------------------------------------------ removing

/// The items that are removed; otherwise the reply.
pub open spec fn items_to_remove(items: Seq<JsonV>, snap: Option<JsonV>, admin: bool) -> Result<
    Seq<JsonV>,
    JsonV,
> {
    match checked_items(items, snap, "删除项不是最近一次扫描结果，已拒绝执行"@) {
        Ok(v) => if any_needs_admin(v) && !admin {
            Err(admin_needed("涉及系统级右键菜单的操作需要管理员权限，请先提权"@))
        } else {
            Ok(v)
        },
        Err(r) => Err(r),
    }
}

/// The items that are removed; otherwise the reply. Nothing may be removed before this
/// was asked.
pub fn remove_gate(items: &Vec<Json>, snap: Option<&Json>, admin: bool) -> (out: Result<
    Vec<Json>,
    Json,
>)
    ensures
        ({
            let r = items_to_remove(
                values(items@),
                match snap {
                    Some(s) => Some(s.view()),
                    None => None,
                },
                admin,
            );
            match out {
                Ok(v) => r == Ok::<Seq<JsonV>, JsonV>(values(v@)),
                Err(e) => r == Err::<Seq<JsonV>, JsonV>(e.view()),
            }
        }),
{
    match check_items(items, snap, "删除项不是最近一次扫描结果，已拒绝执行") {
        Ok(v) => if find_admin(&v) && !admin {
            Err(ask_admin("涉及系统级右键菜单的操作需要管理员权限，请先提权"))
        } else {
            Ok(v)
        },
        Err(r) => Err(r),
    }
}

/// Those of the first `n` items that are files, or those that are not.
pub open spec fn sorted_out(items: Seq<JsonV>, files: bool, n: int) -> Seq<JsonV>
    decreases n,
{
    if n <= 0 {
        Seq::empty()
    } else if from_file(items[n - 1]) == files {
        sorted_out(items, files, n - 1).push(items[n - 1])
    } else {
        sorted_out(items, files, n - 1)
    }
}

/// The items that are files, or those that are not.
pub fn sort_out(items: &Vec<Json>, files: bool) -> (out: Vec<Json>)
    ensures
        values(out@) == sorted_out(values(items@), files, items@.len() as int),
{
    let ghost iv = values(items@);
    let mut out: Vec<Json> = Vec::new();
    let mut i: usize = 0;
    assert(values(out@) =~= Seq::empty());
    while i < items.len()
        invariant
            i <= items@.len(),
            iv == values(items@),
            values(out@) == sorted_out(iv, files, i as int),
        decreases items@.len() - i,
    {
        assert(iv[i as int] == items@[i as int].view());
        if is_file_source(&items[i]) == files {
            let c: Json = copy_json(&items[i]);
            proof {
                lemma_values_push(out@, c);
            }
            out.push(c);
        }
        i += 1;
    }
    out
}

/// What is told where nothing was removed from the registry yet.
pub open spec fn no_removals() -> JsonV {
    JsonV::Obj(
        seq![
            ("success"@, JsonV::Num(dec(0))),
            ("failed"@, JsonV::Num(dec(0))),
            ("results"@, JsonV::Arr(Seq::empty())),
        ],
    )
}

/// What is told of the removals from the registry: what the script tells, with a list of
/// results in any case. `ran` is what the script has left, where there was anything to
/// remove from the registry and it could be run.
pub open spec fn registry_removals(needed: bool, ran: Option<PsOutput>) -> Option<JsonV> {
    if !needed {
        Some(no_removals())
    } else {
        match ran {
            Some(o) => if o.code == 0 {
                match last_json(o.stdout@) {
                    Some(JsonV::Obj(m)) => if array_member(JsonV::Obj(m), "results"@) is Some {
                        Some(JsonV::Obj(m))
                    } else {
                        Some(
                            with_member(JsonV::Obj(m), "results"@, JsonV::Arr(Seq::empty())),
                        )
                    },
                    _ => None,
                }
            } else {
                None
            },
            None => None,
        }
    }
}

/// What is told of the removals from the registry; otherwise the reply.
pub fn registry_result(needed: bool, ran: &Option<PsOutput>) -> (out: Result<Json, Json>)
    ensures
        match out {
            Ok(d) => registry_removals(needed, *ran) == Some(d.view()),
            Err(r) => registry_removals(needed, *ran) is None && r.view() == refused("删除失败"@),
        },
{
    let none: Vec<Json> = Vec::new();
    assert(values(none@) =~= Seq::empty());
    if !needed {
        let f: Fields = Fields::new().with("success", jint(0)).with("failed", jint(0)).with(
            "results",
            jarray(none),
        );
        assert(f.view() =~= no_removals()->Obj_0);
        return Ok(f.object());
    }
    match ran {
        Some(o) => {
            if o.code != 0 {
                return Err(refuse("删除失败"));
            }
            match parse_last_json(o.stdout.as_str()) {
                Some(Json::Obj(m)) => {
                    proof {
                        lemma_view_obj(m);
                    }
                    let d: Json = Json::Obj(m);
                    if d.array("results").is_some() {
                        Ok(d)
                    } else {
                        Ok(set_member(d, "results", jarray(none)))
                    }
                },
                _ => Err(refuse("删除失败")),
            }
        },
        None => Err(refuse("删除失败")),
    }
}

/// What became of a file: the long form of its path, where there is one, and why it could
/// not be moved to the recycle bin.
#[derive(Debug)]
pub struct FileFact {
    pub long: Option<String>,
    pub failure: Option<String>,
}

/// Whether a file may be moved to the recycle bin.
pub open spec fn may_go(it: JsonV, long: Option<String>, r: Roots) -> bool {
    text_or_empty(it, "regPath"@).len() > 0 && !protected_norm(
        normal_path(long_path(text_or_empty(it, "regPath"@), long)),
        r,
    )
}

/// Whether a file may be moved to the recycle bin. Nothing may be moved before this was
/// asked.
pub fn may_trash(it: &Json, long: &Option<String>, r: &ProtectRoots) -> (out: bool)
    ensures
        out == may_go(it.view(), *long, r.view()),
{
    let p: String = own_text(it, "regPath");
    p.as_str().unicode_len() > 0 && !is_protected_norm(
        lexically_normalize(to_long_path(p.as_str(), long).as_str()).as_str(),
        r,
    )
}

/// What is told of a file.
pub open spec fn file_result(it: JsonV, ok: bool, message: Seq<char>) -> JsonV {
    JsonV::Obj(
        seq![
            ("id"@, JsonV::Str(text_or_empty(it, "id"@))),
            ("name"@, JsonV::Str(text_or_empty(it, "name"@))),
            (
                "status"@,
                JsonV::Str(
                    if ok {
                        "ok"@
                    } else {
                        "error"@
                    },
                ),
            ),
            ("message"@, JsonV::Str(message)),
        ],
    )
}

/// Whether a file went to the recycle bin, and what is said of it.
pub open spec fn file_outcome(it: JsonV, f: FileFact, r: Roots) -> (bool, Seq<char>) {
    if text_or_empty(it, "regPath"@).len() == 0 {
        (false, "缺少文件路径"@)
    } else if !may_go(it, f.long, r) {
        (false, "该路径受保护，已拒绝删除"@)
    } else {
        match f.failure {
            Some(m) => (false, m@),
            None => (true, "已移入回收站"@),
        }
    }
}

/// What is told, with one more result.
pub open spec fn with_result(d: JsonV, ok: bool, result: JsonV) -> JsonV {
    let key = if ok {
        "success"@
    } else {
        "failed"@
    };
    let a = with_member(d, key, JsonV::Num(signed_dec(clamp64(count_or_zero(d, key) + 1))));
    let list = match array_member(a, "results"@) {
        Some(l) => l,
        None => Seq::empty(),
    };
    with_member(a, "results"@, JsonV::Arr(list.push(result)))
}

/// What is told after the first `n` files.
pub open spec fn with_files(
    d: JsonV,
    files: Seq<JsonV>,
    facts: Seq<FileFact>,
    r: Roots,
    n: int,
) -> JsonV
    decreases n,
{
    if n <= 0 {
        d
    } else {
        let o = file_outcome(files[n - 1], facts[n - 1], r);
        with_result(
            with_files(d, files, facts, r, n - 1),
            o.0,
            file_result(files[n - 1], o.0, o.1),
        )
    }
}

/// What is written down of a file.
pub open spec fn trashed_entry(it: JsonV, now: Seq<char>) -> JsonV {
    JsonV::Obj(
        seq![
            ("path"@, JsonV::Str(replaced(text_or_empty(it, "regPath"@), '/', '\\'))),
            ("name"@, JsonV::Str(text_or_empty(it, "name"@))),
            ("recycled"@, JsonV::Bool(true)),
            ("deletedAt"@, JsonV::Str(now)),
        ],
    )
}

/// What is written down of the first `n` files.
pub open spec fn trashed_entries(
    files: Seq<JsonV>,
    facts: Seq<FileFact>,
    r: Roots,
    now: Seq<char>,
    n: int,
) -> Seq<JsonV>
    decreases n,
{
    if n <= 0 {
        Seq::empty()
    } else if file_outcome(files[n - 1], facts[n - 1], r).0 {
        trashed_entries(files, facts, r, now, n - 1).push(trashed_entry(files[n - 1], now))
    } else {
        trashed_entries(files, facts, r, now, n - 1)
    }
}

fn add_result(d: Json, ok: bool, result: Json) -> (out: Json)
    ensures
        out.view() == with_result(d.view(), ok, result.view()),
{
    let key: &str = if ok {
        "success"
    } else {
        "failed"
    };
    let n: i64 = add64(own_count(&d, key), 1);
    let a: Json = set_member(d, key, jint(n));
    let mut list: Vec<Json> = match a.array("results") {
        Some(l) => crate::value::copy_items(l),
        None => {
            let none: Vec<Json> = Vec::new();
            assert(values(none@) =~= Seq::empty());
            none
        },
    };
    proof {
        lemma_values_push(list@, result);
    }
    list.push(result);
    set_member(a, "results", jarray(list))
}

fn make_result(it: &Json, ok: bool, message: &str) -> (out: Json)
    ensures
        out.view() == file_result(it.view(), ok, message@),
{
    let f: Fields = Fields::new().with("id", jtext(own_text(it, "id").as_str())).with(
        "name",
        jtext(own_text(it, "name").as_str()),
    ).with(
        "status",
        jtext(
            if ok {
                "ok"
            } else {
                "error"
            },
        ),
    ).with("message", jtext(message));
    assert(f.view() =~= file_result(it.view(), ok, message@)->Obj_0);
    f.object()
}

fn judge_file(it: &Json, f: &FileFact, r: &ProtectRoots) -> (out: (bool, String))
    ensures
        out.0 == file_outcome(it.view(), *f, r.view()).0,
        out.1@ == file_outcome(it.view(), *f, r.view()).1,
{
    let p: String = own_text(it, "regPath");
    if p.as_str().unicode_len() == 0 {
        return (false, "缺少文件路径".to_owned());
    }
    if !may_trash(it, &f.long, r) {
        return (false, "该路径受保护，已拒绝删除".to_owned());
    }
    match &f.failure {
        Some(m) => (false, m.clone()),
        None => (true, "已移入回收站".to_owned()),
    }
}

/// What is told of the removals after the files as well, and what is written down of
/// these.
pub fn files_result(
    d: Json,
    files: &Vec<Json>,
    facts: &Vec<FileFact>,
    r: &ProtectRoots,
    now: &str,
) -> (out: (Json, Vec<Json>))
    requires
        facts.len() == files.len(),
    ensures
        out.0.view() == with_files(
            d.view(),
            values(files@),
            facts@,
            r.view(),
            files@.len() as int,
        ),
        values(out.1@) == trashed_entries(
            values(files@),
            facts@,
            r.view(),
            now@,
            files@.len() as int,
        ),
{
    let ghost fv = values(files@);
    let ghost start = d.view();
    let mut told: Json = d;
    let mut entries: Vec<Json> = Vec::new();
    let mut i: usize = 0;
    assert(values(entries@) =~= Seq::empty());
    while i < files.len()
        invariant
            i <= files@.len(),
            fv == values(files@),
            facts.len() == files.len(),
            told.view() == with_files(start, fv, facts@, r.view(), i as int),
            values(entries@) == trashed_entries(fv, facts@, r.view(), now@, i as int),
        decreases files@.len() - i,
    {
        assert(fv[i as int] == files@[i as int].view());
        let (ok, message) = judge_file(&files[i], &facts[i], r);
        let result: Json = make_result(&files[i], ok, message.as_str());
        told = add_result(told, ok, result);
        if ok {
            let p: String = own_text(&files[i], "regPath");
            let e: Fields = Fields::new().with(
                "path",
                jtext(replace_char(p.as_str(), '/', '\\').as_str()),
            ).with("name", jtext(own_text(&files[i], "name").as_str())).with(
                "recycled",
                Json::Bool(true),
            ).with("deletedAt", jtext(now));
            assert(e.view() =~= trashed_entry(fv[i as int], now@)->Obj_0);
            let e: Json = e.object();
            proof {
                lemma_values_push(entries@, e);
            }
            entries.push(e);
        }
        i += 1;
    }
    (told, entries)
}

/// Whether a result says that an item is no longer there.
pub open spec fn is_gone(r: JsonV) -> bool {
    text_member(r, "status"@) == Some("ok"@) || text_member(r, "message"@) == Some("路径不存在"@)
}

/// The names of the items that are no longer there, by the first `n` results.
pub open spec fn gone_names(results: Seq<JsonV>, n: int) -> Seq<Seq<char>>
    decreases n,
{
    if n <= 0 {
        Seq::empty()
    } else {
        match text_member(results[n - 1], "id"@) {
            Some(id) => if is_gone(results[n - 1]) {
                gone_names(results, n - 1).push(id)
            } else {
                gone_names(results, n - 1)
            },
            None => gone_names(results, n - 1),
        }
    }
}

/// The names of the items that are no longer there, by what is told of the removals.
pub open spec fn gone_of(d: JsonV) -> Seq<Seq<char>> {
    match array_member(d, "results"@) {
        Some(l) => gone_names(l, l.len() as int),
        None => Seq::empty(),
    }
}

fn text_is(v: &Json, key: &str, what: &str) -> (out: bool)
    ensures
        out == (text_member(v.view(), key@) == Some(what@)),
{
    match v.text(key) {
        Some(t) => same(t, what),
        None => false,
    }
}

/// The names of the items that are no longer there.
pub fn gone_items(d: &Json) -> (out: Vec<String>)
    ensures
        texts(out@) == gone_of(d.view()),
{
    let mut out: Vec<String> = Vec::new();
    assert(texts(out@) =~= Seq::empty());
    if let Some(l) = d.array("results") {
        let ghost lv = values(l@);
        let mut i: usize = 0;
        while i < l.len()
            invariant
                i <= l@.len(),
                lv == values(l@),
                texts(out@) == gone_names(lv, i as int),
            decreases l@.len() - i,
        {
            assert(lv[i as int] == l@[i as int].view());
            if let Some(id) = l[i].text("id") {
                if text_is(&l[i], "status", "ok") || text_is(&l[i], "message", "路径不存在") {
                    let id: String = id.to_owned();
                    proof {
                        crate::text::lemma_texts_push(out@, id);
                    }
                    out.push(id);
                }
            }
            i += 1;
        }
        assert(lv.len() == l@.len());
    }
    out
}

/// The first `n` members without those under some names.
pub open spec fn members_without(
    m: Seq<(Seq<char>, JsonV)>,
    names: Seq<Seq<char>>,
    n: int,
) -> Seq<(Seq<char>, JsonV)>
    decreases n,
{
    if n <= 0 {
        Seq::empty()
    } else if names.contains(m[n - 1].0) {
        members_without(m, names, n - 1)
    } else {
        members_without(m, names, n - 1).push(m[n - 1])
    }
}

/// What was found without the items under some names.
pub open spec fn snapshot_without(snap: JsonV, names: Seq<Seq<char>>) -> JsonV {
    match snap {
        JsonV::Obj(m) => JsonV::Obj(members_without(m, names, m.len() as int)),
        _ => snap,
    }
}

/// What was found without the items under some names.
pub fn drop_from_snapshot(snap: Json, names: &Vec<String>) -> (out: Json)
    ensures
        out.view() == snapshot_without(snap.view(), texts(names@)),
{
    match snap {
        Json::Obj(m) => {
            proof {
                lemma_view_obj(m);
            }
            let ghost mv = members(m@);
            let mut kept: Vec<(String, Json)> = Vec::new();
            let mut i: usize = 0;
            assert(members(kept@) =~= Seq::empty());
            while i < m.len()
                invariant
                    i <= m@.len(),
                    mv == members(m@),
                    members(kept@) == members_without(mv, texts(names@), i as int),
                decreases m@.len() - i,
            {
                assert(mv[i as int] == (m@[i as int].0@, m@[i as int].1.view()));
                if !listed(names, m[i].0.as_str()) {
                    let e: (String, Json) = (m[i].0.clone(), copy_json(&m[i].1));
                    let ghost before = members(kept@);
                    kept.push(e);
                    assert(members(kept@) =~= before.push((e.0@, e.1.view())));
                }
                i += 1;
            }
            assert(mv.len() == m@.len());
            proof {
                lemma_view_obj(kept);
            }
            Json::Obj(kept)
        },
        other => other,
    }
}

/// The first `n` items without those under some names.
pub open spec fn items_without(items: Seq<JsonV>, names: Seq<Seq<char>>, n: int) -> Seq<JsonV>
    decreases n,
{
    if n <= 0 {
        Seq::empty()
    } else if names.contains(text_or_empty(items[n - 1], "id"@)) {
        items_without(items, names, n - 1)
    } else {
        items_without(items, names, n - 1).push(items[n - 1])
    }
}

/// The items that are kept of a scan without those under some names.
pub fn drop_from_cache(items: &Vec<Json>, names: &Vec<String>) -> (out: Vec<Json>)
    ensures
        values(out@) == items_without(values(items@), texts(names@), items@.len() as int),
{
    let ghost iv = values(items@);
    let mut out: Vec<Json> = Vec::new();
    let mut i: usize = 0;
    assert(values(out@) =~= Seq::empty());
    while i < items.len()
        invariant
            i <= items@.len(),
            iv == values(items@),
            values(out@) == items_without(iv, texts(names@), i as int),
        decreases items@.len() - i,
    {
        assert(iv[i as int] == items@[i as int].view());
        let id: String = own_text(&items[i], "id");
        if !listed(names, id.as_str()) {
            let c: Json = copy_json(&items[i]);
            proof {
                lemma_values_push(out@, c);
            }
            out.push(c);
        }
        i += 1;
    }
    out
}

/// A reply with data that says whether all went well.
pub open spec fn judged(ok: bool, data: JsonV) -> JsonV {
    JsonV::Obj(seq![("success"@, JsonV::Bool(ok)), ("data"@, data)])
}

fn judge(ok: bool, data: Json) -> (out: Json)
    ensures
        out.view() == judged(ok, data.view()),
{
    let f: Fields = Fields::new().with("success", Json::Bool(ok)).with("data", data);
    assert(f.view() =~= judged(ok, data.view())->Obj_0);
    f.object()
}

/// The reply to a removal: it went well where nothing failed.
pub fn remove_reply(d: Json) -> (out: Json)
    ensures
        out.view() == judged(count_or_zero(d.view(), "failed"@) == 0, d.view()),
{
    let ok: bool = own_count(&d, "failed") == 0;
    judge(ok, d)
}

// ----------------------------------------------------------------------------- switching

/// Whether an item is to be switched on, by the last of the first `n` items of a request
/// with that name.
pub open spec fn wanted(items: Seq<JsonV>, id: Seq<char>, n: int) -> Option<bool>
    decreases n,
{
    if n <= 0 {
        None
    } else if text_member(items[n - 1], "id"@) == Some(id) {
        Some(bool_member(items[n - 1], "enabled"@) == Some(true))
    } else {
        wanted(items, id, n - 1)
    }
}

fn find_wanted(items: &Vec<Json>, id: &str) -> (out: Option<bool>)
    ensures
        out == wanted(values(items@), id@, items@.len() as int),
{
    let ghost iv = values(items@);
    let mut n: usize = items.len();
    while n > 0
        invariant
            n <= items@.len(),
            iv == values(items@),
            wanted(iv, id@, items@.len() as int) == wanted(iv, id@, n as int),
        decreases n,
    {
        assert(iv[n - 1] == items@[n - 1].view());
        if text_is(&items[n - 1], "id", id) {
            return match items[n - 1].flag("enabled") {
                Some(b) => Some(b),
                None => Some(false),
            };
        }
        n -= 1;
    }
    None
}

/// A member, or an empty text.
pub open spec fn member_or_empty(v: JsonV, key: Seq<char>) -> JsonV {
    match member(v, key) {
        Some(x) => x,
        None => JsonV::Str(Seq::empty()),
    }
}

/// What an item is switched to: what the request wants, else what it is.
pub open spec fn target_state(it: JsonV, items: Seq<JsonV>) -> bool {
    match wanted(items, text_or_empty(it, "id"@), items.len() as int) {
        Some(b) => b,
        None => bool_member(it, "enabled"@) == Some(true),
    }
}

/// An item as it is handed on for switching: all but the state it is switched to is taken
/// from what was found.
pub open spec fn switch_item(it: JsonV, enabled: bool) -> JsonV {
    JsonV::Obj(
        seq![
            ("id"@, JsonV::Str(text_or_empty(it, "id"@))),
            ("name"@, member_or_empty(it, "name"@)),
            ("regPath"@, member_or_empty(it, "regPath"@)),
            (
                "nativeRegPath"@,
                match member(it, "nativeRegPath"@) {
                    Some(x) => x,
                    None => member_or_empty(it, "regPath"@),
                },
            ),
            ("source"@, member_or_empty(it, "source"@)),
            ("clsid"@, JsonV::Str(text_or_empty(it, "clsid"@))),
            ("blockedBy"@, JsonV::Str(text_or_empty(it, "blockedBy"@))),
            ("target"@, JsonV::Str(text_or_empty(it, "target"@))),
            ("risk"@, JsonV::Str(text_or_empty(it, "risk"@))),
            ("enabled"@, JsonV::Bool(enabled)),
        ],
    )
}

/// Whether an item can be switched.
pub open spec fn can_switch(it: JsonV) -> bool {
    text_member(it, "regPath"@) is Some && text_member(it, "source"@) is Some
}

/// The first `n` items that can be switched, as they are handed on.
pub open spec fn switch_items(safe: Seq<JsonV>, items: Seq<JsonV>, n: int) -> Seq<JsonV>
    decreases n,
{
    if n <= 0 {
        Seq::empty()
    } else if can_switch(safe[n - 1]) {
        switch_items(safe, items, n - 1).push(
            switch_item(safe[n - 1], target_state(safe[n - 1], items)),
        )
    } else {
        switch_items(safe, items, n - 1)
    }
}

/// The items that are switched; otherwise the reply.
pub open spec fn items_to_switch(items: Seq<JsonV>, snap: Option<JsonV>, admin: bool) -> Result<
    Seq<JsonV>,
    JsonV,
> {
    match checked_items(items, snap, "切换项不是最近一次扫描结果，已拒绝执行"@) {
        Ok(v) => {
            let t = switch_items(v, items, v.len() as int);
            if t.len() == 0 {
                Err(refused("没有可切换的菜单项"@))
            } else if any_needs_admin(t) && !admin {
                Err(admin_needed("涉及系统级右键菜单的操作需要管理员权限，请先提权"@))
            } else {
                Ok(t)
            }
        },
        Err(r) => Err(r),
    }
}

fn own_member(v: &Json, key: &str) -> (out: Json)
    ensures
        out.view() == member_or_empty(v.view(), key@),
{
    match v.get(key) {
        Some(x) => copy_json(x),
        None => {
            let none: String = String::new();
            assert(none@ =~= Seq::empty());
            Json::Str(none)
        },
    }
}

fn make_switch(it: &Json, enabled: bool) -> (out: Json)
    ensures
        out.view() == switch_item(it.view(), enabled),
{
    let native: Json = match it.get("nativeRegPath") {
        Some(x) => copy_json(x),
        None => own_member(it, "regPath"),
    };
    let f: Fields = Fields::new().with("id", jtext(own_text(it, "id").as_str())).with(
        "name",
        own_member(it, "name"),
    ).with("regPath", own_member(it, "regPath")).with("nativeRegPath", native).with(
        "source",
        own_member(it, "source"),
    ).with("clsid", jtext(own_text(it, "clsid").as_str())).with(
        "blockedBy",
        jtext(own_text(it, "blockedBy").as_str()),
    ).with("target", jtext(own_text(it, "target").as_str())).with(
        "risk",
        jtext(own_text(it, "risk").as_str()),
    ).with("enabled", Json::Bool(enabled));
    assert(f.view() =~= switch_item(it.view(), enabled)->Obj_0);
    f.object()
}

fn make_switches(safe: &Vec<Json>, items: &Vec<Json>) -> (out: Vec<Json>)
    ensures
        values(out@) == switch_items(values(safe@), values(items@), safe@.len() as int),
{
    let ghost sv = values(safe@);
    let ghost iv = values(items@);
    assert(iv.len() == items@.len());
    let mut out: Vec<Json> = Vec::new();
    let mut i: usize = 0;
    assert(values(out@) =~= Seq::empty());
    while i < safe.len()
        invariant
            i <= safe@.len(),
            sv == values(safe@),
            iv == values(items@),
            iv.len() == items@.len(),
            values(out@) == switch_items(sv, iv, i as int),
        decreases safe@.len() - i,
    {
        let it: &Json = &safe[i];
        assert(sv[i as int] == it.view());
        if it.text("regPath").is_some() && it.text("source").is_some() {
            let id: String = own_text(it, "id");
            let enabled: bool = match find_wanted(items, id.as_str()) {
                Some(b) => b,
                None => match it.flag("enabled") {
                    Some(b) => b,
                    None => false,
                },
            };
            let s: Json = make_switch(it, enabled);
            proof {
                lemma_values_push(out@, s);
            }
            out.push(s);
        }
        i += 1;
    }
    out
}

/// The items that are switched; otherwise the reply. Nothing may be switched before this
/// was asked.
pub fn toggle_gate(items: &Vec<Json>, snap: Option<&Json>, admin: bool) -> (out: Result<
    Vec<Json>,
    Json,
>)
    ensures
        ({
            let r = items_to_switch(
                values(items@),
                match snap {
                    Some(s) => Some(s.view()),
                    None => None,
                },
                admin,
            );
            match out {
                Ok(v) => r == Ok::<Seq<JsonV>, JsonV>(values(v@)),
                Err(e) => r == Err::<Seq<JsonV>, JsonV>(e.view()),
            }
        }),
{
    let safe: Vec<Json> = match check_items(
        items,
        snap,
        "切换项不是最近一次扫描结果，已拒绝执行",
    ) {
        Ok(v) => v,
        Err(r) => {
            return Err(r);
        },
    };
    let t: Vec<Json> = make_switches(&safe, items);
    assert(values(safe@).len() == safe@.len());
    assert(values(t@).len() == t@.len());
    if t.len() == 0 {
        Err(refuse("没有可切换的菜单项"))
    } else if find_admin(&t) && !admin {
        Err(ask_admin("涉及系统级右键菜单的操作需要管理员权限，请先提权"))
    } else {
        Ok(t)
    }
}

/// What a script tells of the switching; otherwise why there is nothing.
pub open spec fn switch_told(o: PsOutput) -> Result<JsonV, Seq<char>> {
    if o.timed_out {
        Err("切换超时，请稍后重试"@)
    } else if o.code != 0 {
        Err("切换失败"@)
    } else {
        match last_json(o.stdout@) {
            Some(d) => Ok(d),
            None => Err("解析切换结果失败"@),
        }
    }
}

/// What a script tells of the switching; otherwise the reply.
pub fn toggle_output(o: &PsOutput) -> (out: Result<Json, Json>)
    ensures
        match out {
            Ok(d) => switch_told(*o) == Ok::<JsonV, Seq<char>>(d.view()),
            Err(r) => switch_told(*o) matches Err(m) && r.view() == refused(m),
        },
{
    if o.timed_out {
        return Err(refuse("切换超时，请稍后重试"));
    }
    if o.code != 0 {
        return Err(refuse("切换失败"));
    }
    match parse_last_json(o.stdout.as_str()) {
        Some(d) => Ok(d),
        None => Err(refuse("解析切换结果失败")),
    }
}

/// An item with a text taken over from a result, where the result has it.
pub open spec fn taken_over(it: JsonV, r: JsonV, from: Seq<char>, to: Seq<char>) -> JsonV {
    match text_member(r, from) {
        Some(t) => with_member(it, to, JsonV::Str(t)),
        None => it,
    }
}

/// An item after a result: its state, and where it is now.
pub open spec fn after_result(it: JsonV, r: JsonV, state: Option<bool>) -> JsonV {
    let a = match state {
        Some(b) => with_member(it, "enabled"@, JsonV::Bool(b)),
        None => it,
    };
    let b = taken_over(a, r, "newRegPath"@, "regPath"@);
    let c = taken_over(b, r, "newNativeRegPath"@, "nativeRegPath"@);
    taken_over(c, r, "newBlockedBy"@, "blockedBy"@)
}

/// What was found, and whether it has changed, after the first `n` results.
pub open spec fn after_results(
    snap: JsonV,
    results: Seq<JsonV>,
    items: Seq<JsonV>,
    n: int,
) -> (JsonV, bool)
    decreases n,
{
    if n <= 0 {
        (snap, false)
    } else {
        let before = after_results(snap, results, items, n - 1);
        let r = results[n - 1];
        match text_member(r, "id"@) {
            Some(id) => match member(before.0, id) {
                Some(it) => if text_member(r, "status"@) == Some("ok"@) {
                    (
                        with_member(
                            before.0,
                            id,
                            after_result(it, r, wanted(items, id, items.len() as int)),
                        ),
                        true,
                    )
                } else {
                    before
                },
                None => before,
            },
            None => before,
        }
    }
}

fn take_over(it: Json, r: &Json, from: &str, to: &str) -> (out: Json)
    ensures
        out.view() == taken_over(it.view(), r.view(), from@, to@),
{
    match r.text(from) {
        Some(t) => set_member(it, to, jtext(t)),
        None => it,
    }
}

fn change_item(it: Json, r: &Json, state: Option<bool>) -> (out: Json)
    ensures
        out.view() == after_result(it.view(), r.view(), state),
{
    let a: Json = match state {
        Some(b) => set_member(it, "enabled", Json::Bool(b)),
        None => it,
    };
    let b: Json = take_over(a, r, "newRegPath", "regPath");
    let c: Json = take_over(b, r, "newNativeRegPath", "nativeRegPath");
    take_over(c, r, "newBlockedBy", "blockedBy")
}

/// What was found after the switching, and whether it has changed.
pub open spec fn snapshot_after(snap: JsonV, told: JsonV, items: Seq<JsonV>) -> (JsonV, bool) {
    match array_member(told, "results"@) {
        Some(l) => after_results(snap, l, items, l.len() as int),
        None => (snap, false),
    }
}

/// What was found after the switching, and whether it has changed.
pub fn apply_toggle(snap: Json, told: &Json, items: &Vec<Json>) -> (out: (Json, bool))
    ensures
        (out.0.view(), out.1) == snapshot_after(snap.view(), told.view(), values(items@)),
{
    let ghost start = snap.view();
    let ghost iv = values(items@);
    assert(iv.len() == items@.len());
    let mut now: Json = snap;
    let mut touched: bool = false;
    if let Some(l) = told.array("results") {
        let ghost lv = values(l@);
        let mut i: usize = 0;
        while i < l.len()
            invariant
                i <= l@.len(),
                lv == values(l@),
                iv == values(items@),
                iv.len() == items@.len(),
                (now.view(), touched) == after_results(start, lv, iv, i as int),
            decreases l@.len() - i,
        {
            let r: &Json = &l[i];
            assert(lv[i as int] == r.view());
            if let Some(id) = r.text("id") {
                if text_is(r, "status", "ok") {
                    let found: Option<Json> = match now.get(id) {
                        Some(it) => Some(copy_json(it)),
                        None => None,
                    };
                    if let Some(it) = found {
                        let it: Json = change_item(it, r, find_wanted(items, id));
                        now = set_member(now, id, it);
                        touched = true;
                    }
                }
            }
            i += 1;
        }
        assert(lv.len() == l@.len());
    }
    (now, touched)
}

/// The items of what was found.
pub open spec fn items_of(snap: JsonV) -> Seq<JsonV> {
    match snap {
        JsonV::Obj(m) => Seq::new(m.len(), |i: int| m[i].1),
        _ => Seq::empty(),
    }
}

/// The items of what was found.
pub fn snapshot_items(snap: &Json) -> (out: Vec<Json>)
    ensures
        values(out@) == items_of(snap.view()),
{
    let mut out: Vec<Json> = Vec::new();
    if let Json::Obj(m) = snap {
        proof {
            lemma_view_obj(*m);
        }
        let mut i: usize = 0;
        while i < m.len()
            invariant
                i <= m@.len(),
                out@.len() == i,
                forall|k: int| 0 <= k < i ==> (#[trigger] out@[k]).view() == m@[k].1.view(),
            decreases m@.len() - i,
        {
            out.push(copy_json(&m[i].1));
            i += 1;
        }
        assert(members(m@).len() == m@.len());
        assert forall|k: int| 0 <= k < out@.len() implies (#[trigger] out@[k]).view() == members(
            m@,
        )[k].1 by {}
    }
    assert(values(out@) =~= items_of(snap.view()));
    out
}

/// The message of the first result from `i` on that is an error.
pub open spec fn first_error(results: Seq<JsonV>, i: int) -> Option<Seq<char>>
    decreases results.len() - i,
{
    if i < 0 || i >= results.len() {
        None
    } else if text_member(results[i], "status"@) == Some("error"@) {
        text_member(results[i], "message"@)
    } else {
        first_error(results, i + 1)
    }
}

/// The reply to a switching.
pub open spec fn switch_reply(told: JsonV) -> JsonV {
    if count_or_zero(told, "failed"@) > 0 {
        let found = match array_member(told, "results"@) {
            Some(l) => first_error(l, 0),
            None => None,
        };
        JsonV::Obj(
            seq![
                ("success"@, JsonV::Bool(false)),
                (
                    "message"@,
                    JsonV::Str(
                        match found {
                            Some(m) => m,
                            None => "部分项切换失败（可能需要管理员权限）"@,
                        },
                    ),
                ),
                ("data"@, told),
            ],
        )
    } else {
        granted(told)
    }
}

fn find_error(results: &Vec<Json>) -> (out: Option<String>)
    ensures
        match out {
            Some(m) => first_error(values(results@), 0) == Some(m@),
            None => first_error(values(results@), 0) is None,
        },
{
    let ghost rv = values(results@);
    assert(rv.len() == results@.len());
    let mut i: usize = 0;
    while i < results.len()
        invariant
            i <= results@.len(),
            rv == values(results@),
            rv.len() == results@.len(),
            first_error(rv, 0) == first_error(rv, i as int),
        decreases results@.len() - i,
    {
        assert(rv[i as int] == results@[i as int].view());
        if text_is(&results[i], "status", "error") {
            return match results[i].text("message") {
                Some(m) => Some(m.to_owned()),
                None => None,
            };
        }
        i += 1;
    }
    None
}

/// The reply to a switching.
pub fn toggle_reply(told: Json) -> (out: Json)
    ensures
        out.view() == switch_reply(told.view()),
{
    if own_count(&told, "failed") > 0 {
        let found: Option<String> = match told.array("results") {
            Some(l) => find_error(l),
            None => None,
        };
        let message: String = match found {
            Some(m) => m,
            None => "部分项切换失败（可能需要管理员权限）".to_owned(),
        };
        let ghost tv = told.view();
        let f: Fields = Fields::new().with("success", Json::Bool(false)).with(
            "message",
            jtext(message.as_str()),
        ).with("data", told);
        assert(f.view() =~= switch_reply(tv)->Obj_0);
        f.object()
    } else {
        grant(told)
    }
}

// ---------------------------------------------------------------------------- restoring

/// What a script that restores a backup lacks: it must go by what the backup lists, by
/// the keys that may be restored and by the files that a backup writes, and may remove
/// nothing.
pub open spec fn restore_flaw(script: Seq<char>) -> Option<Seq<char>> {
    if !occurs(script, "manifest.registryFiles"@) {
        Some("还原方向丢了 manifest 登记校验，退回自选目录内任意 .reg"@)
    } else if !occurs(script, "Test-RegKeyAllowedForRestore"@) {
        Some("还原方向丢了键路径白名单闸门"@)
    } else if !occurs(script, "-Filter 'registry_*.reg'"@) {
        Some("还原范围从本工具生成的件放宽到全部 .reg"@)
    } else if !occurs(script, "@('HKLM\\SOFTWARE\\Classes\\', 'HKCU\\SOFTWARE\\Classes\\')"@) {
        Some("键路径白名单前缀被改动"@)
    } else if occurs(script, "Remove-Item"@) {
        Some("恢复脚本出现删除"@)
    } else {
        None
    }
}

/// Whether a script may restore a backup; otherwise what it lacks.
pub fn check_restore_script(script: &str) -> (out: Result<(), String>)
    ensures
        match out {
            Ok(_) => restore_flaw(script@) is None,
            Err(m) => restore_flaw(script@) == Some(m@),
        },
{
    let listed: bool = has(script, "manifest.registryFiles");
    if !listed {
        return Err("还原方向丢了 manifest 登记校验，退回自选目录内任意 .reg".to_owned());
    }
    let keyed: bool = has(script, "Test-RegKeyAllowedForRestore");
    if !keyed {
        return Err("还原方向丢了键路径白名单闸门".to_owned());
    }
    let filed: bool = has(script, "-Filter 'registry_*.reg'");
    if !filed {
        return Err("还原范围从本工具生成的件放宽到全部 .reg".to_owned());
    }
    let rooted: bool = has(script, "@('HKLM\\SOFTWARE\\Classes\\', 'HKCU\\SOFTWARE\\Classes\\')");
    if !rooted {
        return Err("键路径白名单前缀被改动".to_owned());
    }
    if has(script, "Remove-Item") {
        return Err("恢复脚本出现删除".to_owned());
    }
    Ok(())
}

/// The texts among the first `n` values.
pub open spec fn texts_among(list: Seq<JsonV>, n: int) -> Seq<Seq<char>>
    decreases n,
{
    if n <= 0 {
        Seq::empty()
    } else {
        match list[n - 1] {
            JsonV::Str(t) => texts_among(list, n - 1).push(t),
            _ => texts_among(list, n - 1),
        }
    }
}

/// The reasons why backups were passed over: those among the first three.
pub open spec fn skip_reasons(d: JsonV) -> Seq<char> {
    match array_member(d, "skipReasons"@) {
        Some(l) => crate::text::joined(
            texts_among(
                l,
                if l.len() < 3 {
                    l.len() as int
                } else {
                    3
                },
            ),
            "；"@,
        ),
        None => Seq::empty(),
    }
}

/// The reply to a restoring: it went well where something was restored and nothing says
/// otherwise.
pub open spec fn restored_reply(code: i32, stdout: Seq<char>) -> JsonV {
    if code != 0 {
        refused("恢复失败"@)
    } else {
        match last_json(stdout) {
            None => refused("解析恢复结果失败"@),
            Some(d) => {
                let imported = clamp64(
                    count_or_zero(d, "imported"@) + count_or_zero(d, "restored"@),
                );
                let ok = bool_member(d, "success"@) == Some(true) && imported > 0;
                let skipped = count_or_zero(d, "skipped"@);
                let reasons = skip_reasons(d);
                if !ok && skipped > 0 && imported == 0 {
                    JsonV::Obj(
                        seq![
                            ("success"@, JsonV::Bool(false)),
                            ("data"@, d),
                            (
                                "message"@,
                                JsonV::Str(
                                    signed_dec(skipped)
                                        + " 个备份被拒绝导入（备份头不是真实注册表分支，多为旧版本产生）"@ + if reasons.len()
                                        == 0 {
                                        Seq::empty()
                                    } else {
                                        "："@ + reasons
                                    },
                                ),
                            ),
                        ],
                    )
                } else {
                    judged(ok, d)
                }
            },
        }
    }
}

fn find_reasons(d: &Json) -> (out: String)
    ensures
        out@ == skip_reasons(d.view()),
{
    match d.array("skipReasons") {
        Some(l) => {
            let ghost lv = values(l@);
            assert(lv.len() == l@.len());
            let n: usize = if l.len() < 3 {
                l.len()
            } else {
                3
            };
            let mut list: Vec<String> = Vec::new();
            let mut i: usize = 0;
            assert(texts(list@) =~= Seq::empty());
            while i < n
                invariant
                    i <= n <= l@.len(),
                    lv == values(l@),
                    texts(list@) == texts_among(lv, i as int),
                decreases n - i,
            {
                assert(lv[i as int] == l@[i as int].view());
                if let Some(t) = l[i].as_str() {
                    let t: String = t.to_owned();
                    proof {
                        crate::text::lemma_texts_push(list@, t);
                    }
                    list.push(t);
                }
                i += 1;
            }
            crate::text::join(&list, "；")
        },
        None => {
            let none: String = String::new();
            assert(none@ =~= Seq::empty());
            none
        },
    }
}

/// The reply to a restoring.
pub fn restore_result(code: i32, stdout: &str) -> (out: Json)
    ensures
        out.view() == restored_reply(code, stdout@),
{
    if code != 0 {
        return refuse("恢复失败");
    }
    let d: Json = match parse_last_json(stdout) {
        Some(d) => d,
        None => {
            return refuse("解析恢复结果失败");
        },
    };
    let imported: i64 = add64(own_count(&d, "imported"), own_count(&d, "restored"));
    let ok: bool = match d.flag("success") {
        Some(b) => b && imported > 0,
        None => false,
    };
    let skipped: i64 = own_count(&d, "skipped");
    if !ok && skipped > 0 && imported == 0 {
        let reasons: String = find_reasons(&d);
        let n: String = decimal(skipped as u64);
        let head: String = cat(
            n.as_str(),
            " 个备份被拒绝导入（备份头不是真实注册表分支，多为旧版本产生）",
        );
        let message: String = if reasons.as_str().unicode_len() == 0 {
            assert(head@ + Seq::empty() =~= head@);
            head
        } else {
            cat(head.as_str(), cat("：", reasons.as_str()).as_str())
        };
        let ghost dv = d.view();
        let f: Fields = Fields::new().with("success", Json::Bool(false)).with("data", d).with(
            "message",
            jtext(message.as_str()),
        );
        assert(f.view() =~= restored_reply(code, stdout@)->Obj_0);
        f.object()
    } else {
        judge(ok, d)
    }
}

// -------------------------------------------------------------------------------- icons

/// Whether a class is that of something that was found.
pub open spec fn known_class(snap: JsonV, class: Seq<char>) -> bool {
    exists|i: int|
        0 <= i < items_of(snap).len() && class_of(#[trigger] items_of(snap)[i]) == Some(
            uppercase(trimmed(class)),
        )
}

/// The class of an item, in upper case, unless it is empty.
pub open spec fn class_of(it: JsonV) -> Option<Seq<char>> {
    match text_member(it, "clsid"@) {
        Some(c) => {
            let u = uppercase(trimmed(c));
            if u.len() > 0 {
                Some(u)
            } else {
                None
            }
        },
        None => None,
    }
}

/// The class of an item whose icon is asked for, if it may be looked up.
pub open spec fn icon_class(it: JsonV, snap: JsonV) -> Option<Seq<char>> {
    match text_member(it, "clsid"@) {
        Some(c) => {
            let t = trimmed(c);
            if t.len() > 0 && t[0] == '{' && known_class(snap, t) {
                Some(t)
            } else {
                None
            }
        },
        None => None,
    }
}

/// The classes of the first `n` items whose icons are looked up.
pub open spec fn icon_items(items: Seq<JsonV>, snap: JsonV, n: int) -> Seq<JsonV>
    decreases n,
{
    if n <= 0 {
        Seq::empty()
    } else {
        match icon_class(items[n - 1], snap) {
            Some(c) => icon_items(items, snap, n - 1).push(
                JsonV::Obj(seq![("clsid"@, JsonV::Str(c))]),
            ),
            None => icon_items(items, snap, n - 1),
        }
    }
}

fn is_known_class(found: &Vec<Json>, upper: &str) -> (out: bool)
    ensures
        out == exists|i: int|
            0 <= i < found@.len() && class_of(#[trigger] values(found@)[i]) == Some(upper@),
{
    let ghost fv = values(found@);
    let mut i: usize = 0;
    while i < found.len()
        invariant
            i <= found@.len(),
            fv == values(found@),
            forall|k: int| 0 <= k < i ==> class_of(#[trigger] fv[k]) != Some(upper@),
        decreases found@.len() - i,
    {
        assert(fv[i as int] == found@[i as int].view());
        if let Some(c) = found[i].text("clsid") {
            let u: String = trim(c).to_uppercase();
            if u.as_str().unicode_len() > 0 && same(u.as_str(), upper) {
                return true;
            }
        }
        i += 1;
    }
    false
}

/// The classes whose icons are looked up: only those of what was found.
pub fn icon_request(items: &Vec<Json>, snap: &Json) -> (out: Vec<Json>)
    ensures
        values(out@) == icon_items(values(items@), snap.view(), items@.len() as int),
{
    let found: Vec<Json> = snapshot_items(snap);
    let ghost iv = values(items@);
    assert(values(found@).len() == found@.len());
    let mut out: Vec<Json> = Vec::new();
    let mut i: usize = 0;
    assert(values(out@) =~= Seq::empty());
    while i < items.len()
        invariant
            i <= items@.len(),
            iv == values(items@),
            values(found@) == items_of(snap.view()),
            values(found@).len() == found@.len(),
            values(out@) == icon_items(iv, snap.view(), i as int),
        decreases items@.len() - i,
    {
        assert(iv[i as int] == items@[i as int].view());
        if let Some(c) = items[i].text("clsid") {
            let t: String = trim(c);
            if t.as_str().unicode_len() > 0 && t.as_str().get_char(0) == '{' {
                let u: String = t.to_uppercase();
                assert(uppercase(trimmed(t@)) == u@) by {
                    lemma_trimmed_twice(c@);
                }
                if is_known_class(&found, u.as_str()) {
                    let f: Fields = Fields::new().with("clsid", jtext(t.as_str()));
                    assert(f.view() =~= seq![("clsid"@, JsonV::Str(t@))]);
                    let o: Json = f.object();
                    proof {
                        lemma_values_push(out@, o);
                    }
                    out.push(o);
                }
            }
        }
        i += 1;
    }
    out
}

proof fn lemma_trimmed_twice(s: Seq<char>)
    ensures
        trimmed(trimmed(s)) == trimmed(s),
{
    let a = crate::text::trimmed_start(s);
    lemma_start_trimmed(s);
    lemma_end_trimmed(a);
    let t = crate::text::trimmed_end(a);
    if t.len() > 0 {
        assert(t[0] == a[0]);
    }
}

proof fn lemma_start_trimmed(s: Seq<char>)
    ensures
        crate::text::trimmed_start(s).len() > 0 ==> !crate::text::white(
            crate::text::trimmed_start(s)[0],
        ),
    decreases s.len(),
{
    if s.len() > 0 && crate::text::white(s[0]) {
        lemma_start_trimmed(s.skip(1));
    }
}

proof fn lemma_end_trimmed(s: Seq<char>)
    ensures
        crate::text::trimmed_end(s).len() > 0 ==> !crate::text::white(
            crate::text::trimmed_end(s).last(),
        ),
        crate::text::trimmed_end(s).len() <= s.len(),
        forall|i: int|
            0 <= i < crate::text::trimmed_end(s).len() ==> (#[trigger] crate::text::trimmed_end(
                s,
            )[i]) == s[i],
    decreases s.len(),
{
    if s.len() > 0 && crate::text::white(s.last()) {
        lemma_end_trimmed(s.drop_last());
    }
}

/// The reply to a request for icons: what the script tells, where it is an object.
pub open spec fn icons_reply(ran: Option<PsOutput>) -> JsonV {
    let none = granted(JsonV::Obj(Seq::empty()));
    match ran {
        Some(o) => if o.code == 0 {
            match last_json(o.stdout@) {
                Some(JsonV::Obj(m)) => granted(JsonV::Obj(m)),
                _ => none,
            }
        } else {
            none
        },
        None => none,
    }
}

fn no_members() -> (out: Json)
    ensures
        out.view() == JsonV::Obj(Seq::empty()),
{
    let none: Vec<(String, Json)> = Vec::new();
    proof {
        lemma_view_obj(none);
        assert(members(none@) =~= Seq::empty());
    }
    Json::Obj(none)
}

/// The reply to a request for icons.
pub fn icons_result(ran: &Option<PsOutput>) -> (out: Json)
    ensures
        out.view() == icons_reply(*ran),
{
    if let Some(o) = ran {
        if o.code == 0 {
            if let Some(Json::Obj(m)) = parse_last_json(o.stdout.as_str()) {
                proof {
                    lemma_view_obj(m);
                }
                return grant(Json::Obj(m));
            }
        }
    }
    grant(no_members())
}

// ----------------------------------------------------------------------------- the editor

/// A text without the mark of a provider in front of it, however often it stands there.
pub open spec fn without_mark(s: Seq<char>) -> Seq<char>
    decreases s.len(),
{
    match behind(s, "Registry::"@) {
        Some(rest) => if rest.len() < s.len() {
            without_mark(rest)
        } else {
            s
        },
        None => s,
    }
}

/// A key with another name for its root, if it has that root.
pub open spec fn renamed_root(s: Seq<char>, full: Seq<char>, short: Seq<char>) -> Option<
    Seq<char>,
> {
    if s == full || (full + "\\"@).is_prefix_of(s) {
        Some(short + s.skip(full.len() as int))
    } else {
        None
    }
}

/// What two texts for the same key of the registry have in common.
pub open spec fn canon_key(s: Seq<char>) -> Seq<char> {
    let t = lowercase(without_trailing(without_mark(trimmed(s)), '\\', '\\'));
    match renamed_root(t, "hkey_classes_root"@, "hkcr"@) {
        Some(r) => r,
        None => match renamed_root(t, "hkey_current_user"@, "hkcu"@) {
            Some(r) => r,
            None => match renamed_root(t, "hkey_local_machine"@, "hklm"@) {
                Some(r) => r,
                None => match renamed_root(t, "hkey_users"@, "hku"@) {
                    Some(r) => r,
                    None => t,
                },
            },
        },
    }
}

fn strip_mark(s: String) -> (out: String)
    ensures
        out@ == without_mark(s@),
{
    let ghost whole = s@;
    let mut t: String = s;
    let mut go: bool = true;
    while go
        invariant
            without_mark(whole) == without_mark(t@),
            !go ==> t@ == without_mark(t@),
        decreases t@.len(), go as int,
    {
        match strip_front(t.as_str(), "Registry::") {
            Some(rest) => {
                if rest.as_str().unicode_len() < t.as_str().unicode_len() {
                    t = rest;
                } else {
                    go = false;
                }
            },
            None => {
                go = false;
            },
        }
    }
    t
}

fn rename_root(s: &str, full: &str, short: &str) -> (out: Option<String>)
    ensures
        match out {
            Some(r) => renamed_root(s@, full@, short@) == Some(r@),
            None => renamed_root(s@, full@, short@) is None,
        },
{
    if same(s, full) || starts_with(s, cat(full, "\\").as_str()) {
        assert(s@.len() >= full@.len());
        let rest: String = skip_chars(s, full.unicode_len());
        Some(cat(short, rest.as_str()))
    } else {
        None
    }
}

/// What two texts for the same key of the registry have in common.
pub fn canon_reg_key(s: &str) -> (out: String)
    ensures
        out@ == canon_key(s@),
{
    let m: String = strip_mark(trim(s));
    let t: String = trim_trailing(m.as_str(), '\\', '\\').to_lowercase();
    if let Some(r) = rename_root(t.as_str(), "hkey_classes_root", "hkcr") {
        return r;
    }
    if let Some(r) = rename_root(t.as_str(), "hkey_current_user", "hkcu") {
        return r;
    }
    if let Some(r) = rename_root(t.as_str(), "hkey_local_machine", "hklm") {
        return r;
    }
    if let Some(r) = rename_root(t.as_str(), "hkey_users", "hku") {
        return r;
    }
    t
}

/// The full name of a root of the registry.
pub open spec fn full_root(s: Seq<char>) -> Option<Seq<char>> {
    let u = uppercase(s);
    if u == "HKCR"@ {
        Some("HKEY_CLASSES_ROOT"@)
    } else if u == "HKCU"@ {
        Some("HKEY_CURRENT_USER"@)
    } else if u == "HKLM"@ {
        Some("HKEY_LOCAL_MACHINE"@)
    } else if u == "HKU"@ {
        Some("HKEY_USERS"@)
    } else if u == "HKCC"@ {
        Some("HKEY_CURRENT_CONFIG"@)
    } else {
        None
    }
}

fn find_full_root(s: &str) -> (out: Option<&'static str>)
    ensures
        match out {
            Some(r) => full_root(s@) == Some(r@),
            None => full_root(s@) is None,
        },
{
    let u: String = s.to_uppercase();
    if same(u.as_str(), "HKCR") {
        Some("HKEY_CLASSES_ROOT")
    } else if same(u.as_str(), "HKCU") {
        Some("HKEY_CURRENT_USER")
    } else if same(u.as_str(), "HKLM") {
        Some("HKEY_LOCAL_MACHINE")
    } else if same(u.as_str(), "HKU") {
        Some("HKEY_USERS")
    } else if same(u.as_str(), "HKCC") {
        Some("HKEY_CURRENT_CONFIG")
    } else {
        None
    }
}

/// The position of the first backslash at or after `i`.
pub open spec fn backslash_at(s: Seq<char>, i: int) -> int
    decreases s.len() - i,
{
    if i < 0 || i >= s.len() || s[i] == '\\' {
        i
    } else {
        backslash_at(s, i + 1)
    }
}

/// A key with the full name of its root.
pub open spec fn with_full_root(p: Seq<char>) -> Seq<char> {
    let i = backslash_at(p, 0);
    if i < p.len() {
        match full_root(p.take(i)) {
            Some(r) => r + "\\"@ + p.skip(i + 1),
            None => p,
        }
    } else {
        match full_root(p) {
            Some(r) => r,
            None => p,
        }
    }
}

/// A key with the full name of its root.
pub fn expand_root(p: &str) -> (out: String)
    ensures
        out@ == with_full_root(p@),
{
    let v: Vec<char> = chars_of(p);
    let mut i: usize = 0;
    while i < v.len() && v[i] != '\\'
        invariant
            i <= v@.len(),
            v@ == p@,
            backslash_at(p@, 0) == backslash_at(p@, i as int),
        decreases v@.len() - i,
    {
        i += 1;
    }
    if i < v.len() {
        let head: String = string_of(&v, 0, i);
        assert(head@ =~= p@.take(i as int));
        match find_full_root(head.as_str()) {
            Some(r) => {
                let tail: String = skip_chars(p, i + 1);
                cat3(r, "\\", tail.as_str())
            },
            None => p.to_owned(),
        }
    } else {
        match find_full_root(p) {
            Some(r) => r.to_owned(),
            None => p.to_owned(),
        }
    }
}

/// Whether something that was found is written at a key.
pub open spec fn found_at(snap: JsonV, key: Seq<char>) -> bool {
    exists|i: int|
        0 <= i < items_of(snap).len() && place_key(#[trigger] items_of(snap)[i]) == Some(key)
}

/// The key at which an item is written, if it says so.
pub open spec fn place_key(it: JsonV) -> Option<Seq<char>> {
    match member(it, "regPath"@) {
        Some(JsonV::Str(t)) => Some(canon_key(t)),
        Some(_) => Some(canon_key(Seq::empty())),
        None => None,
    }
}

/// The key that the editor is opened at; otherwise why it is not.
pub open spec fn editor_key(path: Option<Seq<char>>, snap: Option<JsonV>) -> Result<
    Seq<char>,
    Seq<char>,
> {
    let p = match path {
        Some(t) => without_trailing(trimmed(t), '\\', '\\'),
        None => Seq::empty(),
    };
    if p.len() == 0 {
        Err("无效的注册表路径"@)
    } else {
        match snap {
            Some(s) => if found_at(s, canon_key(p)) {
                Ok(with_full_root(p))
            } else {
                Err("路径不在最近一次扫描结果内，已拒绝打开"@)
            },
            None => Err("路径不在最近一次扫描结果内，已拒绝打开"@),
        }
    }
}

fn is_found_at(snap: &Json, key: &str) -> (out: bool)
    ensures
        out == found_at(snap.view(), key@),
{
    let found: Vec<Json> = snapshot_items(snap);
    let ghost fv = values(found@);
    assert(fv.len() == found@.len());
    let mut i: usize = 0;
    while i < found.len()
        invariant
            i <= found@.len(),
            fv == values(found@),
            fv == items_of(snap.view()),
            fv.len() == found@.len(),
            forall|k: int| 0 <= k < i ==> place_key(#[trigger] fv[k]) != Some(key@),
        decreases found@.len() - i,
    {
        assert(fv[i as int] == found@[i as int].view());
        if let Some(v) = found[i].get("regPath") {
            let k: String = match v.as_str() {
                Some(t) => canon_reg_key(t),
                None => {
                    proof {
                        reveal_strlit("");
                        assert(""@ =~= Seq::empty());
                    }
                    canon_reg_key("")
                },
            };
            assert(place_key(fv[i as int]) == Some(k@));
            if same(k.as_str(), key) {
                return true;
            }
        }
        i += 1;
    }
    false
}

/// The key that the editor is opened at; otherwise the reply. Only the place of something
/// that was found is opened.
pub fn regedit_gate(path: Option<&str>, snap: Option<&Json>) -> (out: Result<String, Json>)
    ensures
        ({
            let r = editor_key(
                match path {
                    Some(p) => Some(p@),
                    None => None,
                },
                match snap {
                    Some(s) => Some(s.view()),
                    None => None,
                },
            );
            match out {
                Ok(k) => r == Ok::<Seq<char>, Seq<char>>(k@),
                Err(e) => r matches Err(m) && e.view() == refused(m),
            }
        }),
{
    let p: String = match path {
        Some(t) => trim_trailing(trim(t).as_str(), '\\', '\\'),
        None => {
            let none: String = String::new();
            assert(none@ =~= Seq::empty());
            none
        },
    };
    if p.as_str().unicode_len() == 0 {
        return Err(refuse("无效的注册表路径"));
    }
    let key: String = canon_reg_key(p.as_str());
    match snap {
        Some(s) => if is_found_at(s, key.as_str()) {
            Ok(expand_root(p.as_str()))
        } else {
            Err(refuse("路径不在最近一次扫描结果内，已拒绝打开"))
        },
        None => Err(refuse("路径不在最近一次扫描结果内，已拒绝打开")),
    }
}

/// What stands before the key in the script that opens the editor.
pub const REGEDIT_HEAD: &'static str = "$ErrorActionPreference = 'SilentlyContinue'\n$key = '";

/// What stands behind the key in the script that opens the editor.
pub const REGEDIT_TAIL: &'static str = "'
$running = Get-Process regedit -ErrorAction SilentlyContinue
if ($running) {
  foreach ($p in $running) { try { $null = $p.CloseMainWindow() } catch {} }
  Start-Sleep -Milliseconds 500
}
try {
  if (-not (Test-Path 'HKCU:\\Software\\Microsoft\\Windows\\CurrentVersion\\Applets\\Regedit')) {
    New-Item -Path 'HKCU:\\Software\\Microsoft\\Windows\\CurrentVersion\\Applets\\Regedit' -Force | Out-Null
  }
  Set-ItemProperty -Path 'HKCU:\\Software\\Microsoft\\Windows\\CurrentVersion\\Applets\\Regedit' -Name 'LastKey' -Value $key -ErrorAction Stop
} catch {}
Start-Sleep -Milliseconds 200
$elevated = $false
try {
  Start-Process regedit -ErrorAction Stop
} catch {
  try {
    Start-Process regedit -Verb RunAs -ErrorAction Stop
    $elevated = $true
  } catch {
    Write-Output 'FAIL'
    exit 1
  }
}
if ($elevated) { Write-Output 'OK-ELEVATED' } else { Write-Output 'OK' }
";

/// The script that opens the editor at a key.
pub fn regedit_script(key: &str) -> (out: String)
    ensures
        out@ == REGEDIT_HEAD@ + doubled(key@) + REGEDIT_TAIL@,
{
    cat3(REGEDIT_HEAD, ps_escape_single(key).as_str(), REGEDIT_TAIL)
}

/// The reply to the opening of the editor.
pub open spec fn editor_reply(code: i32, stdout: Seq<char>) -> JsonV {
    let t = trimmed(stdout);
    if code == 0 && occurs(t, "OK"@) {
        JsonV::Obj(
            seq![
                ("success"@, JsonV::Bool(true)),
                ("elevated"@, JsonV::Bool(occurs(t, "ELEVATED"@))),
            ],
        )
    } else {
        refused("打开注册表编辑器失败"@)
    }
}

/// The reply to the opening of the editor.
pub fn regedit_result(code: i32, stdout: &str) -> (out: Json)
    ensures
        out.view() == editor_reply(code, stdout@),
{
    let t: String = trim(stdout);
    if code == 0 && has(t.as_str(), "OK") {
        let f: Fields = Fields::new().with("success", Json::Bool(true)).with(
            "elevated",
            Json::Bool(has(t.as_str(), "ELEVATED")),
        );
        assert(f.view() =~= editor_reply(code, stdout@)->Obj_0);
        f.object()
    } else {
        refuse("打开注册表编辑器失败")
    }
}

// ----------------------------------------------------------------- the rest of the menu

/// What a script tells, judged by what it says itself.
pub open spec fn self_judged(stdout: Seq<char>) -> JsonV {
    let d = match last_json(stdout) {
        Some(d) => d,
        None => JsonV::Obj(Seq::empty()),
    };
    judged(bool_member(d, "success"@) == Some(true), d)
}

fn judge_self(stdout: &str) -> (out: Json)
    ensures
        out.view() == self_judged(stdout@),
{
    let d: Json = match parse_last_json(stdout) {
        Some(d) => d,
        None => no_members(),
    };
    let ok: bool = match d.flag("success") {
        Some(b) => b,
        None => false,
    };
    judge(ok, d)
}

/// The reply to a restart of the shell by script.
pub fn restart_result(o: &PsOutput) -> (out: Json)
    ensures
        out.view() == (if o.timed_out {
            refused("重启超时，请手动结束并重新打开资源管理器"@)
        } else if o.code != 0 {
            refused("重启资源管理器失败"@)
        } else {
            self_judged(o.stdout@)
        }),
{
    if o.timed_out {
        refuse("重启超时，请手动结束并重新打开资源管理器")
    } else if o.code != 0 {
        refuse("重启资源管理器失败")
    } else {
        judge_self(o.stdout.as_str())
    }
}

/// The reply to something that was done without a script, judged by what it says itself.
pub fn native_result(data: Json) -> (out: Json)
    ensures
        out.view() == judged(bool_member(data.view(), "success"@) == Some(true), data.view()),
{
    let ok: bool = match data.flag("success") {
        Some(b) => b,
        None => false,
    };
    judge(ok, data)
}

/// What is done with the form of the menu: what is asked for, if it is one of the three
/// things that can be done, else it is looked up.
pub open spec fn menu_action(action: Option<Seq<char>>) -> Seq<char> {
    match action {
        Some(a) => if a == "set-classic"@ || a == "set-modern"@ {
            a
        } else {
            "get"@
        },
        None => "get"@,
    }
}

/// What is done with the form of the menu.
pub fn win11_action(action: Option<&str>) -> (out: &'static str)
    ensures
        out@ == menu_action(
            match action {
                Some(a) => Some(a@),
                None => None,
            },
        ),
{
    if let Some(a) = action {
        if same(a, "set-classic") {
            return "set-classic";
        }
        if same(a, "set-modern") {
            return "set-modern";
        }
    }
    "get"
}

/// The script for what is done with the form of the menu.
pub fn win11_script(template: &str, act: &str) -> (out: String)
    ensures
        out@ == (if act@ == "get"@ {
            template@
        } else {
            replaced_once(template@, "$action = 'get'"@, "$action = '"@ + act@ + "'"@)
        }),
{
    if same(act, "get") {
        template.to_owned()
    } else {
        sub_once(template, "$action = 'get'", cat3("$action = '", act, "'").as_str())
    }
}

/// The reply to what was done with the form of the menu by script.
pub fn win11_result(code: i32, stdout: &str) -> (out: Json)
    ensures
        out.view() == (if code != 0 {
            refused("读取或切换 Win11 菜单模式失败"@)
        } else {
            self_judged(stdout@)
        }),
{
    if code != 0 {
        refuse("读取或切换 Win11 菜单模式失败")
    } else {
        judge_self(stdout)
    }
}

/// Whether a character belongs to the name of a class.
pub open spec fn class_char(c: char) -> bool {
    ('0' <= c && c <= '9') || ('a' <= c && c <= 'f') || ('A' <= c && c <= 'F') || c == '-'
}

/// Whether a text is the name of a class.
pub open spec fn class_name(g: Seq<char>) -> bool {
    g.len() == 38 && g[0] == '{' && utf8_width(g[37]) == 1 && forall|i: int|
        1 <= i < 37 ==> class_char(#[trigger] g[i])
}

/// How many blocked classes are listed.
pub const BLOCKED_MAX: usize = 500;

/// A blocked class as it is listed.
pub open spec fn blocked_entry(e: JsonV) -> JsonV {
    JsonV::Obj(
        seq![
            ("guid"@, JsonV::Str(text_or_empty(e, "guid"@))),
            (
                "scope"@,
                JsonV::Str(
                    if text_member(e, "scope"@) == Some("machine"@) {
                        "machine"@
                    } else {
                        "user"@
                    },
                ),
            ),
        ],
    )
}

/// The blocked classes among the first `n` entries.
pub open spec fn blocked_entries(list: Seq<JsonV>, n: int) -> Seq<JsonV>
    decreases n,
{
    if n <= 0 {
        Seq::empty()
    } else {
        let before = blocked_entries(list, n - 1);
        if before.len() < BLOCKED_MAX && (text_member(list[n - 1], "guid"@) matches Some(g)
            && class_name(g)) {
            before.push(blocked_entry(list[n - 1]))
        } else {
            before
        }
    }
}

/// The reply to a request for the blocked classes.
pub open spec fn blocked_reply(code: i32, stdout: Seq<char>) -> JsonV {
    let list = if code != 0 {
        Seq::empty()
    } else {
        match last_json(stdout) {
            Some(d) => match array_member(d, "entries"@) {
                Some(l) => blocked_entries(l, l.len() as int),
                None => Seq::empty(),
            },
            None => Seq::empty(),
        }
    };
    granted(JsonV::Obj(seq![("entries"@, JsonV::Arr(list))]))
}

fn is_class_name(g: &str) -> (out: bool)
    ensures
        out == class_name(g@),
{
    let v: Vec<char> = chars_of(g);
    if v.len() != 38 || v[0] != '{' || (v[37] as u32) >= 0x80 {
        return false;
    }
    let mut i: usize = 1;
    while i < 37
        invariant
            1 <= i <= 37,
            v@ == g@,
            v@.len() == 38,
            forall|k: int| 1 <= k < i ==> class_char(#[trigger] v@[k]),
        decreases 37 - i,
    {
        let c: char = v[i];
        if !(('0' <= c && c <= '9') || ('a' <= c && c <= 'f') || ('A' <= c && c <= 'F') || c
            == '-') {
            assert(!class_char(g@[i as int]));
            return false;
        }
        i += 1;
    }
    true
}

fn find_blocked(list: &Vec<Json>) -> (out: Vec<Json>)
    ensures
        values(out@) == blocked_entries(values(list@), list@.len() as int),
{
    let ghost lv = values(list@);
    let mut out: Vec<Json> = Vec::new();
    let mut i: usize = 0;
    assert(values(out@) =~= Seq::empty());
    while i < list.len()
        invariant
            i <= list@.len(),
            lv == values(list@),
            values(out@) == blocked_entries(lv, i as int),
        decreases list@.len() - i,
    {
        assert(lv[i as int] == list@[i as int].view());
        assert(values(out@).len() == out@.len());
        if let Some(g) = list[i].text("guid") {
            if out.len() < BLOCKED_MAX && is_class_name(g) {
                let f: Fields = Fields::new().with("guid", jtext(g)).with(
                    "scope",
                    jtext(
                        if text_is(&list[i], "scope", "machine") {
                            "machine"
                        } else {
                            "user"
                        },
                    ),
                );
                assert(f.view() =~= blocked_entry(lv[i as int])->Obj_0);
                let e: Json = f.object();
                proof {
                    lemma_values_push(out@, e);
                }
                out.push(e);
            }
        }
        i += 1;
    }
    out
}

/// The reply to a request for the blocked classes.
pub fn blocked_result(code: i32, stdout: &str) -> (out: Json)
    ensures
        out.view() == blocked_reply(code, stdout@),
{
    let mut list: Vec<Json> = Vec::new();
    assert(values(list@) =~= Seq::empty());
    if code == 0 {
        if let Some(d) = parse_last_json(stdout) {
            if let Some(l) = d.array("entries") {
                assert(values(l@).len() == l@.len());
                list = find_blocked(l);
            }
        }
    }
    let ghost lv = values(list@);
    let f: Fields = Fields::new().with("entries", jarray(list));
    assert(f.view() =~= seq![("entries"@, JsonV::Arr(lv))]);
    grant(f.object())
}

// --------------------------------------------------------------------------------- laws

/// One item that a scan has not found makes a request fail as a whole.
pub proof fn law_unknown_item_refuses_all(items: Seq<JsonV>, snap: JsonV, i: int)
    requires
        0 <= i < items.len(),
        vouched(items[i], snap) is None,
    ensures
        valid_items(items, snap) is None,
{
    assert(all_vouched(items, snap, i + 1) is None);
    lemma_not_vouched(items, snap, i + 1, items.len() as int);
}

/// Whatever a request says of its items, what is worked with is what the scan has found
/// under their names.
pub proof fn law_only_found_values(items: Seq<JsonV>, snap: JsonV, i: int)
    requires
        valid_items(items, snap) is Some,
        0 <= i < items.len(),
    ensures
        valid_items(items, snap)->0.len() == items.len(),
        member(snap, text_or_empty(items[i], "id"@)) == Some(valid_items(items, snap)->0[i]),
{
    lemma_vouched(items, snap, items.len() as int, i);
}

proof fn lemma_vouched(items: Seq<JsonV>, snap: JsonV, n: int, i: int)
    requires
        0 <= i < n,
        all_vouched(items, snap, n) is Some,
    ensures
        all_vouched(items, snap, n)->0.len() == n,
        vouched(items[i], snap) == Some(all_vouched(items, snap, n)->0[i]),
    decreases n,
{
    if n > 1 {
        if i < n - 1 {
            lemma_vouched(items, snap, n - 1, i);
        } else {
            lemma_vouched(items, snap, n - 1, n - 2);
        }
    } else {
        assert(all_vouched(items, snap, 0) == Some(Seq::<JsonV>::empty()));
    }
}

/// Without an administrator nothing that belongs to the whole machine is removed.
pub proof fn law_no_machine_item_without_admin(
    items: Seq<JsonV>,
    snap: Option<JsonV>,
    i: int,
)
    requires
        items_to_remove(items, snap, false) is Ok,
        0 <= i < items_to_remove(items, snap, false)->Ok_0.len(),
    ensures
        !needs_admin(items_to_remove(items, snap, false)->Ok_0[i]),
{
    let v = items_to_remove(items, snap, false)->Ok_0;
    if needs_admin(v[i]) {
        assert(any_needs_admin(v));
    }
}

/// A file whose path is protected is never removed, whatever else is known of it.
pub proof fn law_protected_file_stays(it: JsonV, f: FileFact, r: Roots)
    requires
        protected_norm(normal_path(long_path(text_or_empty(it, "regPath"@), f.long)), r),
    ensures
        !file_outcome(it, f, r).0,
{
}

/// An item that is no longer there is not found any more.
pub proof fn law_gone_is_forgotten(snap: JsonV, names: Seq<Seq<char>>, id: Seq<char>)
    requires
        names.contains(id),
        snap is Obj,
    ensures
        member(snapshot_without(snap, names), id) is None,
{
    let m = snap->Obj_0;
    lemma_without(m, names, m.len() as int, id);
    lemma_no_member(members_without(m, names, m.len() as int), id);
}

proof fn lemma_without(
    m: Seq<(Seq<char>, JsonV)>,
    names: Seq<Seq<char>>,
    n: int,
    id: Seq<char>,
)
    requires
        names.contains(id),
    ensures
        forall|k: int|
            0 <= k < members_without(m, names, n).len() ==> (#[trigger] members_without(
                m,
                names,
                n,
            )[k]).0 != id,
    decreases n,
{
    if n > 0 {
        lemma_without(m, names, n - 1, id);
        let before = members_without(m, names, n - 1);
        let now = members_without(m, names, n);
        assert forall|k: int| 0 <= k < now.len() implies (#[trigger] now[k]).0 != id by {
            if k < before.len() {
                assert(now[k] == before[k]);
            }
        }
    }
}

proof fn lemma_no_member(m: Seq<(Seq<char>, JsonV)>, id: Seq<char>)
    requires
        forall|k: int| 0 <= k < m.len() ==> (#[trigger] m[k]).0 != id,
    ensures
        first_member(m, id) is None,
    decreases m.len(),
{
    if m.len() > 0 {
        assert(m[0].0 != id);
        assert forall|k: int| 0 <= k < m.skip(1).len() implies (#[trigger] m.skip(1)[k]).0
            != id by {
            assert(m[k + 1].0 != id);
        }
        lemma_no_member(m.skip(1), id);
    }
}

/// A backup that is short of one item is no backup.
pub proof fn law_backup_is_whole(code: i32, stdout: Seq<char>)
    requires
        last_json(stdout) matches Some(d) && count_or_zero(d, "failed"@) > 0,
    ensures
        backup_reply(code, stdout) matches JsonV::Obj(m) && m[0] == ("success"@, JsonV::Bool(false)),
{
}

/// A script that may restore a backup removes nothing and goes by the keys that may be
/// restored.
pub proof fn law_restore_removes_nothing(script: Seq<char>)
    requires
        restore_flaw(script) is None,
    ensures
        !occurs(script, "Remove-Item"@),
        occurs(script, "Test-RegKeyAllowedForRestore"@),
{
}

} // verus!
