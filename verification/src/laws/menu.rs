//! What the commands for the context menu do with the items of a scan.

use crate::commands::contextmenu::{
    admin_needed, after_result, after_results, backup_reply, blocked_entries, blocked_entry, by_id,
    class_name, count_or_zero, editor_key, file_outcome, file_result, first_error, from_file,
    full_root, gone_names, icon_class, is_gone, items_to_remove, items_to_switch, items_without,
    kept_items, last_json, machine_wide, members_without, menu_action, named_item, needs_admin,
    registry_removals, restored_reply, same_place, script_found, self_judged, sorted_out,
    switch_item, switch_items, switch_reply, switch_told, taken_over, target_state, text_or_empty,
    trashed_entries, trashed_entry, vouched, wanted, with_files, with_result, written_at, FileFact,
    PsOutput,
};
use crate::json::{array_member, first_member, member, text_member, JsonV};
use crate::laws::cleanup::law_replies;
use crate::laws::count::count;
use crate::laws::object::lemma_member_at;
use crate::numbers::{clamp64, signed_dec};
use crate::protect::{normal_path, protected_norm, Roots};
use crate::text::{replaced, trimmed, uppercase};
use crate::value::{bool_member, law_set_member, with_member};
use vstd::prelude::*;

verus! {

proof fn lemma_menu_keys()
    ensures
        "success"@ != "failed"@,
        "success"@ != "results"@,
        "success"@ != "data"@,
        "success"@ != "message"@,
        "success"@ != "needAdmin"@,
        "success"@ != "elevated"@,
        "success"@ != "guid"@,
        "success"@ != "scope"@,
        "failed"@ != "results"@,
        "failed"@ != "data"@,
        "failed"@ != "message"@,
        "failed"@ != "needAdmin"@,
        "failed"@ != "elevated"@,
        "failed"@ != "guid"@,
        "failed"@ != "scope"@,
        "results"@ != "data"@,
        "results"@ != "message"@,
        "results"@ != "needAdmin"@,
        "results"@ != "elevated"@,
        "results"@ != "guid"@,
        "results"@ != "scope"@,
        "data"@ != "message"@,
        "data"@ != "needAdmin"@,
        "data"@ != "elevated"@,
        "data"@ != "guid"@,
        "data"@ != "scope"@,
        "message"@ != "needAdmin"@,
        "message"@ != "elevated"@,
        "message"@ != "guid"@,
        "message"@ != "scope"@,
        "needAdmin"@ != "elevated"@,
        "needAdmin"@ != "guid"@,
        "needAdmin"@ != "scope"@,
        "elevated"@ != "guid"@,
        "elevated"@ != "scope"@,
        "guid"@ != "scope"@,
{
    reveal_strlit("success");
    reveal_strlit("failed");
    reveal_strlit("results");
    reveal_strlit("data");
    reveal_strlit("message");
    reveal_strlit("needAdmin");
    reveal_strlit("elevated");
    reveal_strlit("guid");
    reveal_strlit("scope");
    assert("success"@.len() == 7);
    assert("failed"@.len() == 6);
    assert("results"@.len() == 7);
    assert("data"@.len() == 4);
    assert("message"@.len() == 7);
    assert("needAdmin"@.len() == 9);
    assert("elevated"@.len() == 8);
    assert("guid"@.len() == 4);
    assert("scope"@.len() == 5);
    assert("success"@[0] != "results"@[0]);
    assert("success"@[0] != "message"@[0]);
    assert("results"@[0] != "message"@[0]);
    assert("data"@[0] != "guid"@[0]);
}

proof fn lemma_item_keys()
    ensures
        "id"@ != "name"@,
        "id"@ != "regPath"@,
        "id"@ != "nativeRegPath"@,
        "id"@ != "source"@,
        "id"@ != "clsid"@,
        "id"@ != "blockedBy"@,
        "id"@ != "target"@,
        "id"@ != "risk"@,
        "id"@ != "enabled"@,
        "id"@ != "status"@,
        "id"@ != "message"@,
        "id"@ != "path"@,
        "id"@ != "recycled"@,
        "id"@ != "deletedAt"@,
        "name"@ != "regPath"@,
        "name"@ != "nativeRegPath"@,
        "name"@ != "source"@,
        "name"@ != "clsid"@,
        "name"@ != "blockedBy"@,
        "name"@ != "target"@,
        "name"@ != "risk"@,
        "name"@ != "enabled"@,
        "name"@ != "status"@,
        "name"@ != "message"@,
        "name"@ != "path"@,
        "name"@ != "recycled"@,
        "name"@ != "deletedAt"@,
        "regPath"@ != "nativeRegPath"@,
        "regPath"@ != "source"@,
        "regPath"@ != "clsid"@,
        "regPath"@ != "blockedBy"@,
        "regPath"@ != "target"@,
        "regPath"@ != "risk"@,
        "regPath"@ != "enabled"@,
        "regPath"@ != "status"@,
        "regPath"@ != "message"@,
        "regPath"@ != "path"@,
        "regPath"@ != "recycled"@,
        "regPath"@ != "deletedAt"@,
        "nativeRegPath"@ != "source"@,
        "nativeRegPath"@ != "clsid"@,
        "nativeRegPath"@ != "blockedBy"@,
        "nativeRegPath"@ != "target"@,
        "nativeRegPath"@ != "risk"@,
        "nativeRegPath"@ != "enabled"@,
        "nativeRegPath"@ != "status"@,
        "nativeRegPath"@ != "message"@,
        "nativeRegPath"@ != "path"@,
        "nativeRegPath"@ != "recycled"@,
        "nativeRegPath"@ != "deletedAt"@,
        "source"@ != "clsid"@,
        "source"@ != "blockedBy"@,
        "source"@ != "target"@,
        "source"@ != "risk"@,
        "source"@ != "enabled"@,
        "source"@ != "status"@,
        "source"@ != "message"@,
        "source"@ != "path"@,
        "source"@ != "recycled"@,
        "source"@ != "deletedAt"@,
        "clsid"@ != "blockedBy"@,
        "clsid"@ != "target"@,
        "clsid"@ != "risk"@,
        "clsid"@ != "enabled"@,
        "clsid"@ != "status"@,
        "clsid"@ != "message"@,
        "clsid"@ != "path"@,
        "clsid"@ != "recycled"@,
        "clsid"@ != "deletedAt"@,
        "blockedBy"@ != "target"@,
        "blockedBy"@ != "risk"@,
        "blockedBy"@ != "enabled"@,
        "blockedBy"@ != "status"@,
        "blockedBy"@ != "message"@,
        "blockedBy"@ != "path"@,
        "blockedBy"@ != "recycled"@,
        "blockedBy"@ != "deletedAt"@,
        "target"@ != "risk"@,
        "target"@ != "enabled"@,
        "target"@ != "status"@,
        "target"@ != "message"@,
        "target"@ != "path"@,
        "target"@ != "recycled"@,
        "target"@ != "deletedAt"@,
        "risk"@ != "enabled"@,
        "risk"@ != "status"@,
        "risk"@ != "message"@,
        "risk"@ != "path"@,
        "risk"@ != "recycled"@,
        "risk"@ != "deletedAt"@,
        "enabled"@ != "status"@,
        "enabled"@ != "message"@,
        "enabled"@ != "path"@,
        "enabled"@ != "recycled"@,
        "enabled"@ != "deletedAt"@,
        "status"@ != "message"@,
        "status"@ != "path"@,
        "status"@ != "recycled"@,
        "status"@ != "deletedAt"@,
        "message"@ != "path"@,
        "message"@ != "recycled"@,
        "message"@ != "deletedAt"@,
        "path"@ != "recycled"@,
        "path"@ != "deletedAt"@,
        "recycled"@ != "deletedAt"@,
{
    reveal_strlit("id");
    reveal_strlit("name");
    reveal_strlit("regPath");
    reveal_strlit("nativeRegPath");
    reveal_strlit("source");
    reveal_strlit("clsid");
    reveal_strlit("blockedBy");
    reveal_strlit("target");
    reveal_strlit("risk");
    reveal_strlit("enabled");
    reveal_strlit("status");
    reveal_strlit("message");
    reveal_strlit("path");
    reveal_strlit("recycled");
    reveal_strlit("deletedAt");
    assert("id"@.len() == 2);
    assert("name"@.len() == 4);
    assert("regPath"@.len() == 7);
    assert("nativeRegPath"@.len() == 13);
    assert("source"@.len() == 6);
    assert("clsid"@.len() == 5);
    assert("blockedBy"@.len() == 9);
    assert("target"@.len() == 6);
    assert("risk"@.len() == 4);
    assert("enabled"@.len() == 7);
    assert("status"@.len() == 6);
    assert("message"@.len() == 7);
    assert("path"@.len() == 4);
    assert("recycled"@.len() == 8);
    assert("deletedAt"@.len() == 9);
    assert("name"@[0] != "risk"@[0]);
    assert("name"@[0] != "path"@[0]);
    assert("regPath"@[0] != "enabled"@[0]);
    assert("regPath"@[0] != "message"@[0]);
    assert("source"@[0] != "target"@[0]);
    assert("source"@[1] != "status"@[1]);
    assert("blockedBy"@[0] != "deletedAt"@[0]);
    assert("target"@[0] != "status"@[0]);
    assert("risk"@[0] != "path"@[0]);
    assert("enabled"@[0] != "message"@[0]);
}

proof fn lemma_root_texts()
    ensures
        "HKCR"@ != "HKCU"@,
        "HKCR"@ != "HKLM"@,
        "HKCR"@ != "HKU"@,
        "HKCR"@ != "HKCC"@,
        "HKCU"@ != "HKLM"@,
        "HKCU"@ != "HKU"@,
        "HKCU"@ != "HKCC"@,
        "HKLM"@ != "HKU"@,
        "HKLM"@ != "HKCC"@,
        "HKU"@ != "HKCC"@,
{
    reveal_strlit("HKCR");
    reveal_strlit("HKCU");
    reveal_strlit("HKLM");
    reveal_strlit("HKU");
    reveal_strlit("HKCC");
    assert("HKCR"@.len() == 4);
    assert("HKCU"@.len() == 4);
    assert("HKLM"@.len() == 4);
    assert("HKU"@.len() == 3);
    assert("HKCC"@.len() == 4);
    assert("HKCR"@[3] != "HKCU"@[3]);
    assert("HKCR"@[2] != "HKLM"@[2]);
    assert("HKCR"@[3] != "HKCC"@[3]);
    assert("HKCU"@[2] != "HKLM"@[2]);
    assert("HKCU"@[3] != "HKCC"@[3]);
    assert("HKLM"@[2] != "HKCC"@[2]);
}

// ------------------------------------------------------------------------------ the scan

/// Of the items of a scan the last with a name is known under it.
pub proof fn law_known_by_name(items: Seq<JsonV>, n: int, i: int, id: Seq<char>)
    requires
        0 <= i < n <= items.len(),
        text_member(items[i], "id"@) == Some(id),
        id.len() <= 160,
        forall|j: int| i < j < n ==> text_member(#[trigger] items[j], "id"@) != Some(id),
    ensures
        member(JsonV::Obj(by_id(items, n)), id) == Some(items[i]),
    decreases n,
{
    let before = by_id(items, n - 1);
    let o = JsonV::Obj(before);
    let x = text_member(items[n - 1], "id"@);
    if x is Some && x->0.len() <= 160 {
        law_set_member(o, x->0, items[n - 1], id);
    }
    if i < n - 1 {
        law_known_by_name(items, n - 1, i, id);
    }
}

/// An item that has a name keeps it, and every item has one.
pub proof fn law_every_item_is_named(it: JsonV, index: nat)
    requires
        it is Obj,
    ensures
        text_member(it, "id"@) is Some ==> named_item(it, index) == it,
        text_member(named_item(it, index), "id"@) is Some,
        text_member(it, "id"@) is None && text_member(it, "regPath"@) is Some && text_member(
            it,
            "regPath"@,
        )->0.len() > 0 && text_member(it, "target"@) is None ==> text_member(
            named_item(it, index),
            "id"@,
        ) == text_member(it, "regPath"@),
{
    law_set_member(
        it,
        "id"@,
        JsonV::Str(crate::commands::contextmenu::id_for(it, index)),
        "regPath"@,
    );
}

/// What is worked with in place of an item that is asked for was found under its name, and at
/// the same path where both name one.
pub proof fn law_found_item(it: JsonV, snap: JsonV)
    ensures
        vouched(it, snap) matches Some(k) ==> text_member(it, "id"@) is Some && member(
            snap,
            text_member(it, "id"@)->0,
        ) == Some(k) && same_place(it, k),
        text_member(it, "id"@) is Some && member(snap, text_member(it, "id"@)->0) is Some && text_member(
            it,
            "path"@,
        ) is None ==> vouched(it, snap) == member(snap, text_member(it, "id"@)->0),
{
}

/// Only a scan that ended well and in time has found anything.
pub proof fn law_scan_by_script(o: PsOutput)
    ensures
        script_found(o) is Ok <==> !o.timed_out && o.code == 0 && last_json(o.stdout@) is Some
            && last_json(o.stdout@)->0 is Arr,
        script_found(o) matches Ok(a) ==> last_json(o.stdout@) == Some(JsonV::Arr(a)),
{
}

/// What was kept of a scan is used only where it has items and each of them says where it is
/// really written.
pub proof fn law_kept_scan(v: JsonV)
    ensures
        kept_items(v) matches Some(a) ==> array_member(v, "data"@) == Some(a) && a.len() > 0
            && forall|i: int|
            0 <= i < a.len() ==> text_member(#[trigger] a[i], "nativeRegPath"@) is Some,
        array_member(v, "data"@) matches Some(a) && a.len() == 0 ==> kept_items(v) is None,
{
}

// --------------------------------------------------------------------------- permissions

/// An item belongs to the whole machine where it is blocked for it or written in a key of it;
/// where it is written is told by its real place, if it has one.
pub proof fn law_needs_admin(it: JsonV)
    ensures
        text_member(it, "blockedBy"@) == Some("machine"@) ==> needs_admin(it),
        "HKEY_LOCAL_MACHINE\\"@.is_prefix_of(uppercase(written_at(it))) ==> needs_admin(it),
        "HKEY_CLASSES_ROOT\\"@.is_prefix_of(uppercase(written_at(it))) ==> needs_admin(it),
        "HKLM\\"@.is_prefix_of(uppercase(written_at(it))) ==> needs_admin(it),
        "HKCR\\"@.is_prefix_of(uppercase(written_at(it))) ==> needs_admin(it),
        needs_admin(it) ==> text_member(it, "blockedBy"@) == Some("machine"@) || machine_wide(
            written_at(it),
        ),
        text_member(it, "nativeRegPath"@) matches Some(t) ==> written_at(it) == t,
        member(it, "nativeRegPath"@) is None && text_member(it, "regPath"@) is Some ==> written_at(it)
            == text_member(it, "regPath"@)->0,
{
}

/// Items are removed where all were found and, where one of them belongs to the whole machine,
/// an administrator asks for it.
pub proof fn law_removing(items: Seq<JsonV>, snap: JsonV, admin: bool, i: int)
    requires
        crate::commands::contextmenu::valid_items(items, snap) is Some,
    ensures
        ({
            let v = crate::commands::contextmenu::valid_items(items, snap)->0;
            &&& admin ==> items_to_remove(items, Some(snap), admin) == Ok::<Seq<JsonV>, JsonV>(v)
            &&& !admin && 0 <= i < v.len() && needs_admin(v[i]) ==> items_to_remove(
                items,
                Some(snap),
                admin,
            ) is Err
            &&& !admin && (forall|k: int| 0 <= k < v.len() ==> !needs_admin(#[trigger] v[k]))
                ==> items_to_remove(items, Some(snap), admin) == Ok::<Seq<JsonV>, JsonV>(v)
        }),
        items_to_remove(items, None, admin) is Err,
{
}

/// A request without an administrator is answered so.
pub proof fn law_admin_is_asked_for(message: Seq<char>)
    ensures
        bool_member(admin_needed(message), "success"@) == Some(false),
        bool_member(admin_needed(message), "needAdmin"@) == Some(true),
        text_member(admin_needed(message), "message"@) == Some(message),
{
    lemma_menu_keys();
    let m = admin_needed(message)->Obj_0;
    lemma_member_at(m, 0);
    lemma_member_at(m, 1);
    lemma_member_at(m, 2);
}

/// A backup has succeeded exactly where its script ended well, tells where it is, and has saved
/// at least one item and left none out.
pub proof fn law_backup(code: i32, stdout: Seq<char>)
    ensures
        bool_member(backup_reply(code, stdout), "success"@) == Some(
            code == 0 && last_json(stdout) is Some && text_member(
                last_json(stdout)->0,
                "backupDir"@,
            ) is Some && count_or_zero(last_json(stdout)->0, "count"@) >= 1 && count_or_zero(
                last_json(stdout)->0,
                "failed"@,
            ) <= 0,
        ),
{
    let d = match last_json(stdout) {
        Some(d) => d,
        None => JsonV::Null,
    };
    law_replies("备份失败"@, d);
    law_replies("解析备份结果失败"@, d);
    law_replies("备份未生成有效文件"@, d);
    law_replies(
        "有 "@ + signed_dec(count_or_zero(d, "failed"@))
            + " 项未能生成有效备份（无法归位到真实注册表 hive），已停止删除"@,
        d,
    );
}

// ------------------------------------------------------------------------------ removing

/// Every item is either a file or not, and is sorted out as what it is.
pub proof fn law_sorted_out(items: Seq<JsonV>, n: int, i: int)
    requires
        0 <= i < n <= items.len(),
    ensures
        sorted_out(items, from_file(items[i]), n).contains(items[i]),
        sorted_out(items, true, n).len() + sorted_out(items, false, n).len() == n,
        text_member(items[i], "source"@) == Some("filesystem"@) ==> from_file(items[i]),
        text_member(items[i], "source"@) == Some("winx"@) ==> from_file(items[i]),
        text_member(items[i], "source"@) is None ==> !from_file(items[i]),
    decreases n,
{
    let b = from_file(items[i]);
    let now = sorted_out(items, b, n);
    let before = sorted_out(items, b, n - 1);
    if n > 1 {
        law_sorted_out(
            items,
            n - 1,
            if i < n - 1 {
                i
            } else {
                0
            },
        );
    } else {
        assert(sorted_out(items, true, 0).len() == 0 && sorted_out(items, false, 0).len() == 0);
    }
    if i == n - 1 {
        assert(now[before.len() as int] == items[i]);
    } else {
        let k = choose|k: int| 0 <= k < before.len() && before[k] == items[i];
        assert(now[k] == items[i]);
    }
}

/// A file is removed exactly where it has a path, the path is not protected, and nothing came to
/// grief.
pub proof fn law_file_removed(it: JsonV, f: FileFact, r: Roots)
    ensures
        file_outcome(it, f, r).0 <==> text_or_empty(it, "regPath"@).len() > 0 && !protected_norm(
            normal_path(crate::deletable::long_path(text_or_empty(it, "regPath"@), f.long)),
            r,
        ) && f.failure is None,
{
}

/// What is told of a file: its name, and whether it was removed.
pub proof fn law_file_result(it: JsonV, ok: bool, message: Seq<char>)
    ensures
        text_member(file_result(it, ok, message), "id"@) == Some(text_or_empty(it, "id"@)),
        text_member(file_result(it, ok, message), "status"@) == Some(
            if ok {
                "ok"@
            } else {
                "error"@
            },
        ),
        text_member(file_result(it, ok, message), "message"@) == Some(message),
{
    lemma_item_keys();
    let m = file_result(it, ok, message)->Obj_0;
    lemma_member_at(m, 0);
    lemma_member_at(m, 2);
    lemma_member_at(m, 3);
}

/// A result is counted as what it is, and stands behind those before it.
pub proof fn law_result_is_added(d: JsonV, ok: bool, result: JsonV, list: Seq<JsonV>)
    requires
        d is Obj,
        array_member(d, "results"@) == Some(list),
    ensures
        ({
            let now = with_result(d, ok, result);
            &&& now is Obj
            &&& array_member(now, "results"@) == Some(list.push(result))
            &&& ok ==> member(now, "success"@) == Some(
                JsonV::Num(signed_dec(clamp64(count_or_zero(d, "success"@) + 1))),
            ) && member(now, "failed"@) == member(d, "failed"@)
            &&& !ok ==> member(now, "failed"@) == Some(
                JsonV::Num(signed_dec(clamp64(count_or_zero(d, "failed"@) + 1))),
            ) && member(now, "success"@) == member(d, "success"@)
        }),
{
    lemma_menu_keys();
    let key = if ok {
        "success"@
    } else {
        "failed"@
    };
    let v = JsonV::Num(signed_dec(clamp64(count_or_zero(d, key) + 1)));
    let a = with_member(d, key, v);
    law_set_member(d, key, v, "results"@);
    law_set_member(d, key, v, "success"@);
    law_set_member(d, key, v, "failed"@);
    let w = JsonV::Arr(list.push(result));
    law_set_member(a, "results"@, w, "success"@);
    law_set_member(a, "results"@, w, "failed"@);
}

/// Of every file it is told what became of it, in its turn.
pub proof fn law_files_are_told(
    d: JsonV,
    files: Seq<JsonV>,
    facts: Seq<FileFact>,
    r: Roots,
    n: int,
    list: Seq<JsonV>,
)
    requires
        d is Obj,
        array_member(d, "results"@) == Some(list),
        0 <= n <= files.len(),
    ensures
        with_files(d, files, facts, r, n) is Obj,
        array_member(with_files(d, files, facts, r, n), "results"@) == Some(
            list + Seq::new(
                n as nat,
                |i: int|
                    file_result(
                        files[i],
                        file_outcome(files[i], facts[i], r).0,
                        file_outcome(files[i], facts[i], r).1,
                    ),
            ),
        ),
    decreases n,
{
    let f = |i: int|
        file_result(
            files[i],
            file_outcome(files[i], facts[i], r).0,
            file_outcome(files[i], facts[i], r).1,
        );
    if n > 0 {
        law_files_are_told(d, files, facts, r, n - 1, list);
        let before = with_files(d, files, facts, r, n - 1);
        let o = file_outcome(files[n - 1], facts[n - 1], r);
        let x = file_result(files[n - 1], o.0, o.1);
        law_result_is_added(before, o.0, x, list + Seq::new((n - 1) as nat, f));
        assert((list + Seq::new((n - 1) as nat, f)).push(x) =~= list + Seq::new(n as nat, f));
    } else {
        assert(list + Seq::new(0, f) =~= list);
    }
}

/// The files that were removed.
pub open spec fn removed(files: Seq<JsonV>, facts: Seq<FileFact>, r: Roots) -> spec_fn(int) -> bool {
    |i: int| file_outcome(files[i], facts[i], r).0
}

/// Exactly the files that were removed are written down, with their paths.
pub proof fn law_removed_are_put_down(
    files: Seq<JsonV>,
    facts: Seq<FileFact>,
    r: Roots,
    now: Seq<char>,
    n: int,
    i: int,
)
    requires
        0 <= i < n <= files.len(),
    ensures
        trashed_entries(files, facts, r, now, n).len() == count(n, removed(files, facts, r)),
        file_outcome(files[i], facts[i], r).0 ==> trashed_entries(files, facts, r, now, n).contains(
            trashed_entry(files[i], now),
        ),
        text_member(trashed_entry(files[i], now), "path"@) == Some(
            replaced(text_or_empty(files[i], "regPath"@), '/', '\\'),
        ),
        bool_member(trashed_entry(files[i], now), "recycled"@) == Some(true),
        text_member(trashed_entry(files[i], now), "deletedAt"@) == Some(now),
    decreases n,
{
    lemma_item_keys();
    let m = trashed_entry(files[i], now)->Obj_0;
    lemma_member_at(m, 0);
    lemma_member_at(m, 2);
    lemma_member_at(m, 3);
    let all = trashed_entries(files, facts, r, now, n);
    let before = trashed_entries(files, facts, r, now, n - 1);
    if n > 1 {
        law_removed_are_put_down(
            files,
            facts,
            r,
            now,
            n - 1,
            if i < n - 1 {
                i
            } else {
                0
            },
        );
    } else {
        assert(count(0, removed(files, facts, r)) == 0);
    }
    if file_outcome(files[i], facts[i], r).0 {
        let x = trashed_entry(files[i], now);
        if i == n - 1 {
            assert(all[before.len() as int] == x);
        } else {
            let k = choose|k: int| 0 <= k < before.len() && before[k] == x;
            assert(all[k] == x);
        }
    }
}

/// An item is gone where its result says that it was removed or was not there; an item whose
/// removal has failed is not.
pub proof fn law_gone(results: Seq<JsonV>, n: int, i: int, id: Seq<char>)
    requires
        0 <= i < n <= results.len(),
        text_member(results[i], "id"@) == Some(id),
    ensures
        text_member(results[i], "status"@) == Some("ok"@) ==> gone_names(results, n).contains(id),
        text_member(results[i], "message"@) == Some("路径不存在"@) ==> gone_names(results, n).contains(id),
        (forall|j: int|
            0 <= j < n && text_member(#[trigger] results[j], "id"@) == Some(id) ==> text_member(
                results[j],
                "status"@,
            ) != Some("ok"@) && text_member(results[j], "message"@) != Some("路径不存在"@))
            ==> !gone_names(results, n).contains(id),
    decreases n,
{
    let now = gone_names(results, n);
    let before = gone_names(results, n - 1);
    if is_gone(results[i]) {
        lemma_gone_in(results, n, i, id);
    }
    if forall|j: int|
        0 <= j < n && text_member(#[trigger] results[j], "id"@) == Some(id) ==> text_member(
            results[j],
            "status"@,
        ) != Some("ok"@) && text_member(results[j], "message"@) != Some("路径不存在"@) {
        lemma_not_gone(results, n, id);
    }
}

proof fn lemma_gone_in(results: Seq<JsonV>, n: int, i: int, id: Seq<char>)
    requires
        0 <= i < n <= results.len(),
        text_member(results[i], "id"@) == Some(id),
        is_gone(results[i]),
    ensures
        gone_names(results, n).contains(id),
    decreases n,
{
    let now = gone_names(results, n);
    let before = gone_names(results, n - 1);
    if i == n - 1 {
        assert(now[before.len() as int] == id);
    } else {
        lemma_gone_in(results, n - 1, i, id);
        let k = choose|k: int| 0 <= k < before.len() && before[k] == id;
        assert(now[k] == id);
    }
}

proof fn lemma_not_gone(results: Seq<JsonV>, n: int, id: Seq<char>)
    requires
        0 <= n <= results.len(),
        forall|j: int|
            0 <= j < n && text_member(#[trigger] results[j], "id"@) == Some(id) ==> !is_gone(
                results[j],
            ),
    ensures
        !gone_names(results, n).contains(id),
    decreases n,
{
    if n > 0 {
        lemma_not_gone(results, n - 1, id);
        let now = gone_names(results, n);
        let before = gone_names(results, n - 1);
        if now.contains(id) {
            let k = choose|k: int| 0 <= k < now.len() && now[k] == id;
            if k < before.len() {
                assert(before[k] == id);
            } else {
                assert(text_member(results[n - 1], "id"@) == Some(id));
            }
        }
    }
}

/// What is not gone is still found.
pub proof fn law_others_are_still_found(
    m: Seq<(Seq<char>, JsonV)>,
    names: Seq<Seq<char>>,
    n: int,
    i: int,
)
    requires
        0 <= i < n <= m.len(),
    ensures
        !names.contains(m[i].0) ==> members_without(m, names, n).contains(m[i]),
        forall|k: int|
            0 <= k < members_without(m, names, n).len() ==> !names.contains(
                (#[trigger] members_without(m, names, n)[k]).0,
            ),
    decreases n,
{
    let now = members_without(m, names, n);
    let before = members_without(m, names, n - 1);
    if n > 1 {
        law_others_are_still_found(
            m,
            names,
            n - 1,
            if i < n - 1 {
                i
            } else {
                0
            },
        );
    }
    if !names.contains(m[i].0) {
        if i == n - 1 {
            assert(now[before.len() as int] == m[i]);
        } else {
            let k = choose|k: int| 0 <= k < before.len() && before[k] == m[i];
            assert(now[k] == m[i]);
        }
    }
    assert forall|k: int| 0 <= k < now.len() implies !names.contains((#[trigger] now[k]).0) by {
        if k < before.len() {
            assert(now[k] == before[k]);
        }
    }
}

/// The items that are kept are those that are not gone.
pub proof fn law_others_are_still_kept(items: Seq<JsonV>, names: Seq<Seq<char>>, n: int, i: int)
    requires
        0 <= i < n <= items.len(),
    ensures
        !names.contains(text_or_empty(items[i], "id"@)) ==> items_without(items, names, n).contains(
            items[i],
        ),
        forall|k: int|
            0 <= k < items_without(items, names, n).len() ==> !names.contains(
                text_or_empty(#[trigger] items_without(items, names, n)[k], "id"@),
            ),
    decreases n,
{
    let now = items_without(items, names, n);
    let before = items_without(items, names, n - 1);
    if n > 1 {
        law_others_are_still_kept(
            items,
            names,
            n - 1,
            if i < n - 1 {
                i
            } else {
                0
            },
        );
    }
    if !names.contains(text_or_empty(items[i], "id"@)) {
        if i == n - 1 {
            assert(now[before.len() as int] == items[i]);
        } else {
            let k = choose|k: int| 0 <= k < before.len() && before[k] == items[i];
            assert(now[k] == items[i]);
        }
    }
    assert forall|k: int| 0 <= k < now.len() implies !names.contains(
        text_or_empty(#[trigger] now[k], "id"@),
    ) by {
        if k < before.len() {
            assert(now[k] == before[k]);
        }
    }
}

/// Nothing is told as removed from the registry where the script did not end well; where nothing
/// was to be removed, nothing is told.
pub proof fn law_registry_removals(o: PsOutput)
    ensures
        o.code != 0 ==> registry_removals(true, Some(o)) is None,
        registry_removals(true, None) is None,
        registry_removals(false, Some(o)) matches Some(d) && member(d, "success"@) == Some(
            JsonV::Num(crate::text::dec(0)),
        ) && member(d, "failed"@) == Some(JsonV::Num(crate::text::dec(0))),
{
    lemma_menu_keys();
    let m = crate::commands::contextmenu::no_removals()->Obj_0;
    lemma_member_at(m, 0);
    lemma_member_at(m, 1);
}

// ----------------------------------------------------------------------------- switching

/// An item is switched to what the last item of the request with its name wants; one that the
/// request does not name stays as it is.
pub proof fn law_wanted_state(it: JsonV, items: Seq<JsonV>, i: int)
    ensures
        0 <= i < items.len() && text_member(items[i], "id"@) == Some(text_or_empty(it, "id"@)) && (
        forall|j: int|
            i < j < items.len() ==> text_member(#[trigger] items[j], "id"@) != Some(
                text_or_empty(it, "id"@),
            )) ==> target_state(it, items) == (bool_member(items[i], "enabled"@) == Some(true)),
        (forall|j: int|
            0 <= j < items.len() ==> text_member(#[trigger] items[j], "id"@) != Some(
                text_or_empty(it, "id"@),
            )) ==> target_state(it, items) == (bool_member(it, "enabled"@) == Some(true)),
{
    let id = text_or_empty(it, "id"@);
    if 0 <= i < items.len() && text_member(items[i], "id"@) == Some(id) && (forall|j: int|
        i < j < items.len() ==> text_member(#[trigger] items[j], "id"@) != Some(id)) {
        lemma_wanted(items, id, items.len() as int, i);
    }
    if forall|j: int| 0 <= j < items.len() ==> text_member(#[trigger] items[j], "id"@) != Some(id) {
        lemma_unwanted(items, id, items.len() as int);
    }
}

proof fn lemma_wanted(items: Seq<JsonV>, id: Seq<char>, n: int, i: int)
    requires
        0 <= i < n <= items.len(),
        text_member(items[i], "id"@) == Some(id),
        forall|j: int| i < j < n ==> text_member(#[trigger] items[j], "id"@) != Some(id),
    ensures
        wanted(items, id, n) == Some(bool_member(items[i], "enabled"@) == Some(true)),
    decreases n,
{
    if i < n - 1 {
        lemma_wanted(items, id, n - 1, i);
    }
}

proof fn lemma_unwanted(items: Seq<JsonV>, id: Seq<char>, n: int)
    requires
        0 <= n <= items.len(),
        forall|j: int| 0 <= j < n ==> text_member(#[trigger] items[j], "id"@) != Some(id),
    ensures
        wanted(items, id, n) is None,
    decreases n,
{
    if n > 0 {
        lemma_unwanted(items, id, n - 1);
    }
}

/// What is handed on for switching: the state that is wanted, and everything else as it was
/// found.
pub proof fn law_switch_item(it: JsonV, enabled: bool)
    ensures
        ({
            let s = switch_item(it, enabled);
            &&& bool_member(s, "enabled"@) == Some(enabled)
            &&& text_member(s, "id"@) == Some(text_or_empty(it, "id"@))
            &&& member(it, "regPath"@) is Some ==> member(s, "regPath"@) == member(it, "regPath"@)
            &&& member(it, "nativeRegPath"@) is Some ==> member(s, "nativeRegPath"@) == member(
                it,
                "nativeRegPath"@,
            )
            &&& member(it, "source"@) is Some ==> member(s, "source"@) == member(it, "source"@)
            &&& text_member(s, "clsid"@) == Some(text_or_empty(it, "clsid"@))
            &&& text_member(s, "blockedBy"@) == Some(text_or_empty(it, "blockedBy"@))
        }),
{
    lemma_item_keys();
    let m = switch_item(it, enabled)->Obj_0;
    lemma_member_at(m, 0);
    lemma_member_at(m, 2);
    lemma_member_at(m, 3);
    lemma_member_at(m, 4);
    lemma_member_at(m, 5);
    lemma_member_at(m, 6);
    lemma_member_at(m, 9);
}

/// Every item that can be switched is handed on with the state that is wanted.
pub proof fn law_switched_items(safe: Seq<JsonV>, items: Seq<JsonV>, n: int, i: int)
    requires
        0 <= i < n <= safe.len(),
        text_member(safe[i], "regPath"@) is Some,
        text_member(safe[i], "source"@) is Some,
    ensures
        switch_items(safe, items, n).contains(switch_item(safe[i], target_state(safe[i], items))),
    decreases n,
{
    let x = switch_item(safe[i], target_state(safe[i], items));
    let now = switch_items(safe, items, n);
    let before = switch_items(safe, items, n - 1);
    if i == n - 1 {
        assert(now[before.len() as int] == x);
    } else {
        law_switched_items(safe, items, n - 1, i);
        let k = choose|k: int| 0 <= k < before.len() && before[k] == x;
        assert(now[k] == x);
    }
}

/// Without an administrator nothing that belongs to the whole machine is switched.
pub proof fn law_no_machine_item_is_switched(items: Seq<JsonV>, snap: Option<JsonV>, i: int)
    requires
        items_to_switch(items, snap, false) is Ok,
        0 <= i < items_to_switch(items, snap, false)->Ok_0.len(),
    ensures
        !needs_admin(items_to_switch(items, snap, false)->Ok_0[i]),
        items_to_switch(items, snap, false)->Ok_0.len() > 0,
{
}

/// After a switching an item has the state that was wanted, and the place that the result tells;
/// nothing else of it has changed.
pub proof fn law_after_switching(it: JsonV, r: JsonV, b: bool, key: Seq<char>)
    requires
        it is Obj,
    ensures
        ({
            let now = after_result(it, r, Some(b));
            &&& bool_member(now, "enabled"@) == Some(b)
            &&& text_member(r, "newRegPath"@) matches Some(t) ==> text_member(now, "regPath"@)
                == Some(t)
            &&& text_member(r, "newNativeRegPath"@) matches Some(t) ==> text_member(
                now,
                "nativeRegPath"@,
            ) == Some(t)
            &&& text_member(r, "newBlockedBy"@) matches Some(t) ==> text_member(now, "blockedBy"@)
                == Some(t)
            &&& key != "enabled"@ && key != "regPath"@ && key != "nativeRegPath"@ && key
                != "blockedBy"@ ==> member(now, key) == member(it, key)
        }),
{
    lemma_item_keys();
    let a = with_member(it, "enabled"@, JsonV::Bool(b));
    law_set_member(it, "enabled"@, JsonV::Bool(b), key);
    let p = taken_over(a, r, "newRegPath"@, "regPath"@);
    lemma_taken_over(a, r, "newRegPath"@, "regPath"@, "enabled"@);
    lemma_taken_over(a, r, "newRegPath"@, "regPath"@, key);
    let q = taken_over(p, r, "newNativeRegPath"@, "nativeRegPath"@);
    lemma_taken_over(p, r, "newNativeRegPath"@, "nativeRegPath"@, "enabled"@);
    lemma_taken_over(p, r, "newNativeRegPath"@, "nativeRegPath"@, "regPath"@);
    lemma_taken_over(p, r, "newNativeRegPath"@, "nativeRegPath"@, key);
    lemma_taken_over(q, r, "newBlockedBy"@, "blockedBy"@, "enabled"@);
    lemma_taken_over(q, r, "newBlockedBy"@, "blockedBy"@, "regPath"@);
    lemma_taken_over(q, r, "newBlockedBy"@, "blockedBy"@, "nativeRegPath"@);
    lemma_taken_over(q, r, "newBlockedBy"@, "blockedBy"@, key);
}

proof fn lemma_taken_over(it: JsonV, r: JsonV, from: Seq<char>, to: Seq<char>, other: Seq<char>)
    requires
        it is Obj,
    ensures
        taken_over(it, r, from, to) is Obj,
        text_member(r, from) matches Some(t) ==> text_member(taken_over(it, r, from, to), to)
            == Some(t),
        to != other ==> member(taken_over(it, r, from, to), other) == member(it, other),
{
    if text_member(r, from) is Some {
        law_set_member(it, to, JsonV::Str(text_member(r, from)->0), other);
    }
}

/// What was found changes under the names of items that were switched alone.
pub proof fn law_only_switched_change(
    snap: JsonV,
    results: Seq<JsonV>,
    items: Seq<JsonV>,
    n: int,
    id: Seq<char>,
)
    requires
        0 <= n <= results.len(),
        forall|i: int|
            0 <= i < n && text_member(#[trigger] results[i], "id"@) == Some(id) ==> text_member(
                results[i],
                "status"@,
            ) != Some("ok"@),
    ensures
        member(after_results(snap, results, items, n).0, id) == member(snap, id),
    decreases n,
{
    if n > 0 {
        law_only_switched_change(snap, results, items, n - 1, id);
        let before = after_results(snap, results, items, n - 1);
        let r = results[n - 1];
        if text_member(r, "id"@) is Some {
            let x = text_member(r, "id"@)->0;
            if member(before.0, x) is Some && text_member(r, "status"@) == Some("ok"@) {
                law_set_member(
                    before.0,
                    x,
                    after_result(
                        member(before.0, x)->0,
                        r,
                        wanted(items, x, items.len() as int),
                    ),
                    id,
                );
            }
        }
    }
}

/// A switching has succeeded exactly where nothing failed; else the first error is told.
pub proof fn law_switching_is_told(told: JsonV)
    ensures
        bool_member(switch_reply(told), "success"@) == Some(count_or_zero(told, "failed"@) <= 0),
        member(switch_reply(told), "data"@) == Some(told),
        count_or_zero(told, "failed"@) > 0 && array_member(told, "results"@) is Some && first_error(
            array_member(told, "results"@)->0,
            0,
        ) is Some ==> text_member(switch_reply(told), "message"@) == first_error(
            array_member(told, "results"@)->0,
            0,
        ),
{
    lemma_menu_keys();
    law_replies(Seq::empty(), told);
    if count_or_zero(told, "failed"@) > 0 {
        let m = switch_reply(told)->Obj_0;
        lemma_member_at(m, 0);
        lemma_member_at(m, 1);
        lemma_member_at(m, 2);
    }
}

/// A switching that took too long, or did not end well, tells nothing.
pub proof fn law_switching_by_script(o: PsOutput)
    ensures
        switch_told(o) is Ok <==> !o.timed_out && o.code == 0 && last_json(o.stdout@) is Some,
        switch_told(o) matches Ok(d) ==> last_json(o.stdout@) == Some(d),
{
}

// ------------------------------------------------------------------------------ the rest

/// A restoring has succeeded exactly where its script ended well, says so, and has restored
/// something.
pub proof fn law_restoring_is_told(code: i32, stdout: Seq<char>)
    ensures
        bool_member(restored_reply(code, stdout), "success"@) == Some(
            code == 0 && last_json(stdout) is Some && bool_member(
                last_json(stdout)->0,
                "success"@,
            ) == Some(true) && clamp64(
                count_or_zero(last_json(stdout)->0, "imported"@) + count_or_zero(
                    last_json(stdout)->0,
                    "restored"@,
                ),
            ) > 0,
        ),
{
    lemma_menu_keys();
    law_replies("恢复失败"@, JsonV::Null);
    law_replies("解析恢复结果失败"@, JsonV::Null);
    if code == 0 && last_json(stdout) is Some {
        let m = restored_reply(code, stdout)->Obj_0;
        assert(m[0].0 == "success"@);
        lemma_member_at(m, 0);
    }
}

/// What a script says of itself is what is told.
pub proof fn law_judged_by_itself(stdout: Seq<char>)
    ensures
        bool_member(self_judged(stdout), "success"@) == Some(
            last_json(stdout) is Some && bool_member(last_json(stdout)->0, "success"@) == Some(true),
        ),
{
    lemma_menu_keys();
    let d = match last_json(stdout) {
        Some(d) => d,
        None => JsonV::Obj(Seq::empty()),
    };
    lemma_member_at(self_judged(stdout)->Obj_0, 0);
    if last_json(stdout) is None {
        assert(first_member(Seq::<(Seq<char>, JsonV)>::empty(), "success"@) is None);
    }
}

/// The editor is opened only at a key that was found, and never without a scan.
pub proof fn law_editor(path: Seq<char>, snap: JsonV)
    ensures
        editor_key(Some(path), None) is Err,
        editor_key(None, Some(snap)) is Err,
        editor_key(Some(path), Some(snap)) is Ok ==> crate::commands::contextmenu::found_at(
            snap,
            crate::commands::contextmenu::canon_key(
                crate::text::without_trailing(trimmed(path), '\\', '\\'),
            ),
        ),
{
}

/// The roots of the registry have their full names.
pub proof fn law_full_roots(s: Seq<char>)
    ensures
        uppercase(s) == "HKCR"@ ==> full_root(s) == Some("HKEY_CLASSES_ROOT"@),
        uppercase(s) == "HKCU"@ ==> full_root(s) == Some("HKEY_CURRENT_USER"@),
        uppercase(s) == "HKLM"@ ==> full_root(s) == Some("HKEY_LOCAL_MACHINE"@),
        uppercase(s) == "HKU"@ ==> full_root(s) == Some("HKEY_USERS"@),
        uppercase(s) == "HKCC"@ ==> full_root(s) == Some("HKEY_CURRENT_CONFIG"@),
{
    lemma_root_texts();
}

/// The icon of an item is looked up only where its class was found by a scan.
pub proof fn law_icons(it: JsonV, snap: JsonV)
    ensures
        icon_class(it, snap) matches Some(c) ==> crate::commands::contextmenu::known_class(snap, c)
            && c.len() > 0 && c[0] == '{' && text_member(it, "clsid"@) is Some && c == trimmed(
            text_member(it, "clsid"@)->0,
        ),
{
}

/// The form of the menu is changed only where one of the two changes is asked for.
pub proof fn law_menu_action(a: Seq<char>)
    ensures
        menu_action(Some("set-classic"@)) == "set-classic"@,
        menu_action(Some("set-modern"@)) == "set-modern"@,
        a != "set-classic"@ && a != "set-modern"@ ==> menu_action(Some(a)) == "get"@,
        menu_action(None) == "get"@,
{
}

/// Every blocked class is listed with its scope, up to the limit; what is no class is not.
pub proof fn law_blocked_classes(list: Seq<JsonV>, n: int, i: int)
    requires
        0 <= i < n <= list.len() <= 500,
        text_member(list[i], "guid"@) is Some,
        class_name(text_member(list[i], "guid"@)->0),
    ensures
        blocked_entries(list, n).contains(blocked_entry(list[i])),
        text_member(blocked_entry(list[i]), "guid"@) == text_member(list[i], "guid"@),
        text_member(list[i], "scope"@) == Some("machine"@) ==> text_member(
            blocked_entry(list[i]),
            "scope"@,
        ) == Some("machine"@),
        text_member(list[i], "scope"@) != Some("machine"@) ==> text_member(
            blocked_entry(list[i]),
            "scope"@,
        ) == Some("user"@),
    decreases n,
{
    lemma_menu_keys();
    let m = blocked_entry(list[i])->Obj_0;
    lemma_member_at(m, 0);
    lemma_member_at(m, 1);
    let x = blocked_entry(list[i]);
    let now = blocked_entries(list, n);
    let before = blocked_entries(list, n - 1);
    lemma_blocked_len(list, n - 1);
    if i == n - 1 {
        assert(now[before.len() as int] == x);
    } else {
        law_blocked_classes(list, n - 1, i);
        let k = choose|k: int| 0 <= k < before.len() && before[k] == x;
        assert(now[k] == x);
    }
}

proof fn lemma_blocked_len(list: Seq<JsonV>, n: int)
    requires
        0 <= n <= list.len(),
    ensures
        blocked_entries(list, n).len() <= n,
    decreases n,
{
    if n > 0 {
        lemma_blocked_len(list, n - 1);
    }
}

} // verus!
