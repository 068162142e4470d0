//! What the commands for cleaning up answer.

use crate::commands::cleanup::{
    categories_in, file_value, id_or_empty, ingested, item_files, scan_items, scan_reply, short_texts,
    with_files, with_plan, PlanRow, Scanned,
};
use crate::commands::cleanup_detail::{
    ended, list_reply, listed_file, may_remove, pid_of, shown_count, tried, tried_reply, Retry,
    Tried,
};
use crate::commands::cleanup_execute::{
    all_vouched, details_in, error_count, execute_reply, failures_of, moved_sums, printed,
    recycled_data, resolved, settled, stat_of, summarized, summary_of, validated, vouched, Move,
};
use crate::commands::cleanup_locks::{
    counted_up, is_critical, locked_reply, looked_at, may_end, proc_value, watched_files,
    watched_value, with_proc, InUse,
};
use crate::commands::reply::{granted, refused, refused_empty};
use crate::commands::rules::last_with_id;
use crate::json::{array_member, member, text_member, JsonV};
use crate::laws::cleaned::ended as with_status;
use crate::laws::cleaned::{law_summary_counts, moved_for};
use crate::laws::count::{added, count};
use crate::laws::object::lemma_member_at;
use crate::numbers::signed_dec;
use crate::protect::Roots;
use crate::text::{behind, dec};
use crate::value::{bool_member, json_in, law_set_member, truthy, whole_of, with_member};
use vstd::prelude::*;

verus! {

proof fn lemma_reply_keys()
    ensures
        "success"@ != "data"@,
        "success"@ != "message"@,
        "data"@ != "message"@,
{
    reveal_strlit("success");
    reveal_strlit("data");
    reveal_strlit("message");
    assert("success"@.len() == 7);
    assert("data"@.len() == 4);
    assert("message"@.len() == 7);
    assert("success"@[0] != "message"@[0]);
}

proof fn lemma_data_keys()
    ensures
        "details"@ != "totalFreed"@,
        "details"@ != "recycledBytes"@,
        "details"@ != "recycledCount"@,
        "details"@ != "success"@,
        "details"@ != "partial"@,
        "details"@ != "skipped"@,
        "details"@ != "trashFailures"@,
        "details"@ != "failed"@,
        "totalFreed"@ != "recycledBytes"@,
        "totalFreed"@ != "recycledCount"@,
        "totalFreed"@ != "success"@,
        "totalFreed"@ != "partial"@,
        "totalFreed"@ != "skipped"@,
        "totalFreed"@ != "trashFailures"@,
        "totalFreed"@ != "failed"@,
        "recycledBytes"@ != "recycledCount"@,
        "recycledBytes"@ != "success"@,
        "recycledBytes"@ != "partial"@,
        "recycledBytes"@ != "skipped"@,
        "recycledBytes"@ != "trashFailures"@,
        "recycledBytes"@ != "failed"@,
        "recycledCount"@ != "success"@,
        "recycledCount"@ != "partial"@,
        "recycledCount"@ != "skipped"@,
        "recycledCount"@ != "trashFailures"@,
        "recycledCount"@ != "failed"@,
        "success"@ != "partial"@,
        "success"@ != "skipped"@,
        "success"@ != "trashFailures"@,
        "success"@ != "failed"@,
        "partial"@ != "skipped"@,
        "partial"@ != "trashFailures"@,
        "partial"@ != "failed"@,
        "skipped"@ != "trashFailures"@,
        "skipped"@ != "failed"@,
        "trashFailures"@ != "failed"@,
{
    reveal_strlit("details");
    reveal_strlit("totalFreed");
    reveal_strlit("recycledBytes");
    reveal_strlit("recycledCount");
    reveal_strlit("success");
    reveal_strlit("partial");
    reveal_strlit("skipped");
    reveal_strlit("trashFailures");
    reveal_strlit("failed");
    assert("details"@.len() == 7);
    assert("totalFreed"@.len() == 10);
    assert("recycledBytes"@.len() == 13);
    assert("recycledCount"@.len() == 13);
    assert("success"@.len() == 7);
    assert("partial"@.len() == 7);
    assert("skipped"@.len() == 7);
    assert("trashFailures"@.len() == 13);
    assert("failed"@.len() == 6);
    assert("details"@[0] != "success"@[0]);
    assert("details"@[0] != "partial"@[0]);
    assert("details"@[0] != "skipped"@[0]);
    assert("recycledBytes"@[8] != "recycledCount"@[8]);
    assert("recycledBytes"@[0] != "trashFailures"@[0]);
    assert("recycledCount"@[0] != "trashFailures"@[0]);
    assert("success"@[0] != "partial"@[0]);
    assert("success"@[1] != "skipped"@[1]);
    assert("partial"@[0] != "skipped"@[0]);
}

proof fn lemma_tried_keys()
    ensures
        "totalFreed"@ != "ok"@,
        "totalFreed"@ != "failed"@,
        "totalFreed"@ != "details"@,
        "ok"@ != "failed"@,
        "ok"@ != "details"@,
        "failed"@ != "details"@,
{
    reveal_strlit("totalFreed");
    reveal_strlit("ok");
    reveal_strlit("failed");
    reveal_strlit("details");
    assert("totalFreed"@.len() == 10);
    assert("ok"@.len() == 2);
    assert("failed"@.len() == 6);
    assert("details"@.len() == 7);
}

proof fn lemma_list_keys()
    ensures
        "kind"@ != "total"@,
        "kind"@ != "truncated"@,
        "kind"@ != "files"@,
        "kind"@ != "filesTruncated"@,
        "total"@ != "truncated"@,
        "total"@ != "files"@,
        "total"@ != "filesTruncated"@,
        "truncated"@ != "files"@,
        "truncated"@ != "filesTruncated"@,
        "files"@ != "filesTruncated"@,
{
    reveal_strlit("kind");
    reveal_strlit("total");
    reveal_strlit("truncated");
    reveal_strlit("files");
    reveal_strlit("filesTruncated");
    assert("kind"@.len() == 4);
    assert("total"@.len() == 5);
    assert("truncated"@.len() == 9);
    assert("files"@.len() == 5);
    assert("filesTruncated"@.len() == 14);
    assert("total"@[0] != "files"@[0]);
}

proof fn lemma_lock_keys()
    ensures
        "success"@ != "locked"@,
        "success"@ != "byApp"@,
        "success"@ != "procs"@,
        "success"@ != "lockedByItem"@,
        "success"@ != "scanned"@,
        "success"@ != "truncated"@,
        "success"@ != "data"@,
        "locked"@ != "byApp"@,
        "locked"@ != "procs"@,
        "locked"@ != "lockedByItem"@,
        "locked"@ != "scanned"@,
        "locked"@ != "truncated"@,
        "locked"@ != "data"@,
        "byApp"@ != "procs"@,
        "byApp"@ != "lockedByItem"@,
        "byApp"@ != "scanned"@,
        "byApp"@ != "truncated"@,
        "byApp"@ != "data"@,
        "procs"@ != "lockedByItem"@,
        "procs"@ != "scanned"@,
        "procs"@ != "truncated"@,
        "procs"@ != "data"@,
        "lockedByItem"@ != "scanned"@,
        "lockedByItem"@ != "truncated"@,
        "lockedByItem"@ != "data"@,
        "scanned"@ != "truncated"@,
        "scanned"@ != "data"@,
        "truncated"@ != "data"@,
{
    reveal_strlit("success");
    reveal_strlit("locked");
    reveal_strlit("byApp");
    reveal_strlit("procs");
    reveal_strlit("lockedByItem");
    reveal_strlit("scanned");
    reveal_strlit("truncated");
    reveal_strlit("data");
    assert("success"@.len() == 7);
    assert("locked"@.len() == 6);
    assert("byApp"@.len() == 5);
    assert("procs"@.len() == 5);
    assert("lockedByItem"@.len() == 12);
    assert("scanned"@.len() == 7);
    assert("truncated"@.len() == 9);
    assert("data"@.len() == 4);
    assert("success"@[1] != "scanned"@[1]);
    assert("byApp"@[0] != "procs"@[0]);
}

proof fn lemma_proc_keys()
    ensures
        "pid"@ != "app"@,
        "pid"@ != "critical"@,
        "pid"@ != "path"@,
        "pid"@ != "size"@,
        "pid"@ != "status"@,
        "pid"@ != "freed"@,
        "pid"@ != "message"@,
        "pid"@ != "id"@,
        "app"@ != "critical"@,
        "app"@ != "path"@,
        "app"@ != "size"@,
        "app"@ != "status"@,
        "app"@ != "freed"@,
        "app"@ != "message"@,
        "app"@ != "id"@,
        "critical"@ != "path"@,
        "critical"@ != "size"@,
        "critical"@ != "status"@,
        "critical"@ != "freed"@,
        "critical"@ != "message"@,
        "critical"@ != "id"@,
        "path"@ != "size"@,
        "path"@ != "status"@,
        "path"@ != "freed"@,
        "path"@ != "message"@,
        "path"@ != "id"@,
        "size"@ != "status"@,
        "size"@ != "freed"@,
        "size"@ != "message"@,
        "size"@ != "id"@,
        "status"@ != "freed"@,
        "status"@ != "message"@,
        "status"@ != "id"@,
        "freed"@ != "message"@,
        "freed"@ != "id"@,
        "message"@ != "id"@,
{
    reveal_strlit("pid");
    reveal_strlit("app");
    reveal_strlit("critical");
    reveal_strlit("path");
    reveal_strlit("size");
    reveal_strlit("status");
    reveal_strlit("freed");
    reveal_strlit("message");
    reveal_strlit("id");
    assert("pid"@.len() == 3);
    assert("app"@.len() == 3);
    assert("critical"@.len() == 8);
    assert("path"@.len() == 4);
    assert("size"@.len() == 4);
    assert("status"@.len() == 6);
    assert("freed"@.len() == 5);
    assert("message"@.len() == 7);
    assert("id"@.len() == 2);
    assert("pid"@[0] != "app"@[0]);
    assert("path"@[0] != "size"@[0]);
}


// ------------------------------------------------------------------------------ replies

/// A refusal says that nothing was done, and why; a grant says that it was, with what came of
/// it.
pub proof fn law_replies(message: Seq<char>, data: JsonV)
    ensures
        bool_member(refused(message), "success"@) == Some(false),
        text_member(refused(message), "message"@) == Some(message),
        bool_member(refused_empty(message), "success"@) == Some(false),
        text_member(refused_empty(message), "message"@) == Some(message),
        bool_member(granted(data), "success"@) == Some(true),
        member(granted(data), "data"@) == Some(data),
        bool_member(crate::commands::reply::done(), "success"@) == Some(true),
{
    lemma_reply_keys();
    lemma_member_at(refused(message)->Obj_0, 0);
    lemma_member_at(refused(message)->Obj_0, 1);
    lemma_member_at(refused_empty(message)->Obj_0, 0);
    lemma_member_at(refused_empty(message)->Obj_0, 1);
    lemma_member_at(granted(data)->Obj_0, 0);
    lemma_member_at(granted(data)->Obj_0, 1);
    lemma_member_at(crate::commands::reply::done()->Obj_0, 0);
}

// ---------------------------------------------------------------------------- executing

/// A cleanup is told as a success exactly where none of its details has failed, with the number
/// of those that have and of those done in part; what could not be moved is told for another
/// try.
pub proof fn law_cleanup_is_told(
    data: JsonV,
    entries: Seq<JsonV>,
    moves: Seq<Move>,
    to_recycle: bool,
)
    requires
        data is Obj,
    ensures
        ({
            let reply = execute_reply(data, entries, moves, to_recycle);
            let told = member(reply, "data"@)->0;
            let details = details_in(told);
            let n = details.len() as int;
            let failed = count(n, with_status(details, "error"@));
            &&& member(reply, "data"@) is Some
            &&& bool_member(reply, "success"@) == Some(failed == 0)
            &&& member(told, "failed"@) == Some(JsonV::Num(dec(failed)))
            &&& member(told, "partial"@) == Some(
                JsonV::Num(dec(count(n, with_status(details, "partial"@)))),
            )
            &&& to_recycle && entries.len() > 0 ==> member(told, "trashFailures"@) == Some(
                JsonV::Arr(failures_of(entries, moves, entries.len() as int)),
            )
            &&& !to_recycle || entries.len() == 0 ==> member(told, "trashFailures"@) == Some(
                JsonV::Arr(Seq::empty()),
            ) && details == details_in(data)
            &&& to_recycle && entries.len() > 0 ==> details == Seq::new(
                details_in(data).len(),
                |i: int| settled(details_in(data)[i], entries, moves),
            )
        }),
{
    let reply = execute_reply(data, entries, moves, to_recycle);
    let busy = to_recycle && entries.len() > 0;
    let base = if busy {
        recycled_data(data, entries, moves)
    } else {
        data
    };
    if busy {
        law_recycled_data(data, entries, moves);
    }
    let failures = if busy {
        failures_of(entries, moves, entries.len() as int)
    } else {
        Seq::empty()
    };
    lemma_reply_keys();
    lemma_data_keys();
    let fv = JsonV::Arr(failures);
    let a = with_member(base, "trashFailures"@, fv);
    law_set_member(base, "trashFailures"@, fv, "details"@);
    let failed = error_count(details_in(a), details_in(a).len() as int);
    let b = with_member(a, "failed"@, JsonV::Num(dec(failed)));
    law_set_member(a, "failed"@, JsonV::Num(dec(failed)), "details"@);
    law_set_member(a, "failed"@, JsonV::Num(dec(failed)), "trashFailures"@);
    let pv = JsonV::Num(dec(summarized(a).partial));
    let c = with_member(b, "partial"@, pv);
    law_set_member(b, "partial"@, pv, "details"@);
    law_set_member(b, "partial"@, pv, "trashFailures"@);
    law_set_member(b, "partial"@, pv, "failed"@);
    lemma_member_at(reply->Obj_0, 0);
    lemma_member_at(reply->Obj_0, 1);
    assert(member(reply, "data"@) == Some(c));
    assert(details_in(c) == details_in(a));
    law_summary_counts(details_in(a), details_in(a).len() as int);
}

/// The result of a cleanup with a recycle bin: each detail as it was settled, and the numbers of
/// those that ended in each way.
pub proof fn law_recycled_data(data: JsonV, entries: Seq<JsonV>, moves: Seq<Move>)
    requires
        data is Obj,
    ensures
        ({
            let now = recycled_data(data, entries, moves);
            let details = details_in(now);
            let n = details.len() as int;
            &&& now is Obj
            &&& details == Seq::new(
                details_in(data).len(),
                |i: int| settled(details_in(data)[i], entries, moves),
            )
            &&& member(now, "success"@) == Some(
                JsonV::Num(dec(count(n, with_status(details, "ok"@)))),
            )
            &&& member(now, "partial"@) == Some(
                JsonV::Num(dec(count(n, with_status(details, "partial"@)))),
            )
            &&& member(now, "skipped"@) == Some(
                JsonV::Num(dec(count(n, with_status(details, "skip"@)))),
            )
            &&& member(now, "totalFreed"@) == Some(
                JsonV::Num(signed_dec(summary_of(details, n).freed)),
            )
        }),
{
    lemma_data_keys();
    let details = details_in(data);
    let sums = moved_sums(details, entries, moves, details.len() as int);
    let list = JsonV::Arr(Seq::new(details.len(), |i: int| settled(details[i], entries, moves)));
    let moved = if array_member(data, "details"@) is Some {
        with_member(data, "details"@, list)
    } else {
        data
    };
    law_set_member(data, "details"@, list, "success"@);
    if array_member(data, "details"@) is Some {
        assert(details_in(moved) =~= list->Arr_0);
    } else {
        assert(details_in(moved) =~= Seq::new(details.len(), |i: int| settled(details[i], entries, moves)));
    }
    let s = summarized(moved);
    let v1 = JsonV::Num(signed_dec(s.freed));
    let a = with_member(moved, "totalFreed"@, v1);
    law_set_member(moved, "totalFreed"@, v1, "details"@);
    let v2 = JsonV::Num(signed_dec(sums.0));
    let b = with_member(a, "recycledBytes"@, v2);
    law_set_member(a, "recycledBytes"@, v2, "details"@);
    law_set_member(a, "recycledBytes"@, v2, "totalFreed"@);
    let v3 = JsonV::Num(signed_dec(sums.1));
    let c = with_member(b, "recycledCount"@, v3);
    law_set_member(b, "recycledCount"@, v3, "details"@);
    law_set_member(b, "recycledCount"@, v3, "totalFreed"@);
    let v4 = JsonV::Num(dec(s.success));
    let d = with_member(c, "success"@, v4);
    law_set_member(c, "success"@, v4, "details"@);
    law_set_member(c, "success"@, v4, "totalFreed"@);
    let v5 = JsonV::Num(dec(s.partial));
    let e = with_member(d, "partial"@, v5);
    law_set_member(d, "partial"@, v5, "details"@);
    law_set_member(d, "partial"@, v5, "totalFreed"@);
    law_set_member(d, "partial"@, v5, "success"@);
    let v6 = JsonV::Num(dec(s.skipped));
    law_set_member(e, "skipped"@, v6, "details"@);
    law_set_member(e, "skipped"@, v6, "totalFreed"@);
    law_set_member(e, "skipped"@, v6, "success"@);
    law_set_member(e, "skipped"@, v6, "partial"@);
    law_summary_counts(details_in(moved), details_in(moved).len() as int);
}

/// The details whose entries were to be moved.
pub open spec fn moved_items(details: Seq<JsonV>, entries: Seq<JsonV>, moves: Seq<Move>) -> spec_fn(int) -> int {
    |i: int|
        if text_member(details[i], "status"@) == Some("recycle"@) {
            count(entries.len() as int, moved_for(entries, moves, id_or_empty(details[i]))) as int
        } else {
            0
        }
}

proof fn lemma_stat_ok(entries: Seq<JsonV>, moves: Seq<Move>, id: Seq<char>, n: int)
    requires
        0 <= n <= entries.len(),
    ensures
        stat_of(entries, moves, id, n).ok == count(n, moved_for(entries, moves, id)),
        !stat_of(entries, moves, id, n).seen ==> stat_of(entries, moves, id, n).ok == 0,
    decreases n,
{
    if n > 0 {
        lemma_stat_ok(entries, moves, id, n - 1);
    }
}

/// The number of moved entries that is told is that of all items together.
pub proof fn law_moved_are_counted(
    details: Seq<JsonV>,
    entries: Seq<JsonV>,
    moves: Seq<Move>,
    n: int,
)
    requires
        0 <= n <= details.len(),
        forall|k: int|
            0 <= k <= n ==> #[trigger] added(k, moved_items(details, entries, moves)) <= i64::MAX,
    ensures
        moved_sums(details, entries, moves, n).1 == added(n, moved_items(details, entries, moves)),
        0 <= added(n, moved_items(details, entries, moves)),
    decreases n,
{
    if n > 0 {
        law_moved_are_counted(details, entries, moves, n - 1);
        lemma_stat_ok(entries, moves, id_or_empty(details[n - 1]), entries.len() as int);
        assert(added(n, moved_items(details, entries, moves)) <= i64::MAX);
    }
}

proof fn lemma_last(list: Seq<JsonV>, id: Seq<char>, n: int)
    requires
        0 <= n <= list.len(),
    ensures
        last_with_id(list, id, n) matches Some(i) ==> 0 <= i < n && text_member(list[i], "id"@)
            == Some(id) && forall|j: int| i < j < n ==> text_member(#[trigger] list[j], "id"@) != Some(id),
        last_with_id(list, id, n) is None ==> forall|j: int|
            0 <= j < n ==> text_member(#[trigger] list[j], "id"@) != Some(id),
    decreases n,
{
    if n > 0 {
        lemma_last(list, id, n - 1);
    }
}

/// What is cleaned in place of an item that is asked for has the id of the item, and its path
/// where both name one; an item that has both, and was found last under its id, is accepted.
pub proof fn law_vouched(item: JsonV, snapshot: Seq<JsonV>, cwd: Option<Seq<char>>, i: int)
    ensures
        vouched(item, snapshot, cwd) matches Some(k) ==> text_member(k, "id"@) is Some && text_member(
            k,
            "id"@,
        ) == text_member(item, "id"@) && snapshot.contains(k) && (match (
            text_member(item, "path"@),
            text_member(k, "path"@),
        ) {
            (Some(p), Some(q)) => p.len() == 0 || q.len() == 0 || resolved(p, cwd) == resolved(
                q,
                cwd,
            ),
            _ => true,
        }),
        0 <= i < snapshot.len() && text_member(item, "id"@) is Some && text_member(
            item,
            "id"@,
        )->0.len() <= 160 && text_member(snapshot[i], "id"@) == text_member(item, "id"@) && text_member(
            snapshot[i],
            "path"@,
        ) == text_member(item, "path"@) && (forall|j: int|
            i < j < snapshot.len() ==> text_member(#[trigger] snapshot[j], "id"@) != text_member(
                item,
                "id"@,
            )) ==> vouched(item, snapshot, cwd) == Some(snapshot[i]),
{
    if text_member(item, "id"@) is Some {
        let id = text_member(item, "id"@)->0;
        lemma_last(snapshot, id, snapshot.len() as int);
    }
}

/// A request is accepted exactly where it is a list of one to five hundred items, each of which
/// the last scan vouches for.
pub proof fn law_validated(a: Seq<JsonV>, snapshot: Seq<JsonV>, cwd: Option<Seq<char>>)
    ensures
        validated(Some(JsonV::Arr(a)), snapshot, cwd) is Some <==> 1 <= a.len() <= 500 && forall|i: int|
            0 <= i < a.len() ==> vouched(#[trigger] a[i], snapshot, cwd) is Some,
        validated(Some(JsonV::Arr(a)), snapshot, cwd) matches Some(list) ==> list.len() == a.len()
            && forall|i: int|
            0 <= i < a.len() ==> vouched(a[i], snapshot, cwd) == Some(#[trigger] list[i]),
        validated(None, snapshot, cwd) is None,
{
    lemma_all_vouched(a, snapshot, cwd, a.len() as int);
}

proof fn lemma_all_vouched(a: Seq<JsonV>, snapshot: Seq<JsonV>, cwd: Option<Seq<char>>, n: int)
    requires
        0 <= n <= a.len(),
    ensures
        all_vouched(a, snapshot, cwd, n) <==> forall|i: int|
            0 <= i < n ==> vouched(#[trigger] a[i], snapshot, cwd) is Some,
    decreases n,
{
    if n > 0 {
        lemma_all_vouched(a, snapshot, cwd, n - 1);
        if all_vouched(a, snapshot, cwd, n) {
            assert forall|i: int| 0 <= i < n implies vouched(#[trigger] a[i], snapshot, cwd) is Some by {}
        } else if forall|i: int| 0 <= i < n ==> vouched(#[trigger] a[i], snapshot, cwd) is Some {
            assert(vouched(a[n - 1], snapshot, cwd) is Some);
        }
    }
}

/// Whether a line names an entry to move.
pub open spec fn names_entry(line: Seq<char>) -> bool {
    behind(line, "@@RECYCLE@@"@) is Some && json_in(behind(line, "@@RECYCLE@@"@)->0) is Some
        && text_member(json_in(behind(line, "@@RECYCLE@@"@)->0)->0, "path"@) is Some && text_member(
        json_in(behind(line, "@@RECYCLE@@"@)->0)->0,
        "path"@,
    )->0.len() > 0
}

/// Every entry that a line names is moved, and every line that is no such line is part of the
/// result.
pub proof fn law_printed(list: Seq<Seq<char>>, n: int, i: int)
    requires
        0 <= i < n <= list.len(),
    ensures
        names_entry(list[i]) ==> printed(list, n).entries.contains(
            json_in(behind(list[i], "@@RECYCLE@@"@)->0)->0,
        ),
        behind(list[i], "@@RECYCLE@@"@) is None ==> printed(list, n).clean.contains(list[i]),
        printed(list, n).entries.len() <= n,
    decreases n,
{
    let now = printed(list, n);
    let before = printed(list, n - 1);
    if n > 1 {
        law_printed(
            list,
            n - 1,
            if i < n - 1 {
                i
            } else {
                0
            },
        );
    }
    if i == n - 1 {
        if names_entry(list[i]) {
            assert(now.entries[before.entries.len() as int] == json_in(
                behind(list[i], "@@RECYCLE@@"@)->0,
            )->0);
        }
        if behind(list[i], "@@RECYCLE@@"@) is None {
            assert(now.clean[before.clean.len() as int] == list[i]);
        }
    } else {
        if names_entry(list[i]) {
            let x = json_in(behind(list[i], "@@RECYCLE@@"@)->0)->0;
            let k = choose|k: int| 0 <= k < before.entries.len() && before.entries[k] == x;
            assert(now.entries[k] == x);
        }
        if behind(list[i], "@@RECYCLE@@"@) is None {
            let k = choose|k: int| 0 <= k < before.clean.len() && before.clean[k] == list[i];
            assert(now.clean[k] == list[i]);
        }
    }
}

// ----------------------------------------------------------------------------- scanning

/// A planned file is kept with its id, its path and its size while the limits leave room; where
/// those of its item are used up, that is noted.
pub proof fn law_plan_line_is_kept(a: Scanned, pf: JsonV)
    requires
        text_member(pf, "id"@) is Some,
        text_member(pf, "path"@) is Some,
        text_member(pf, "id"@)->0.len() <= 160,
        text_member(pf, "path"@)->0.len() <= 2000,
    ensures
        ({
            let id = text_member(pf, "id"@)->0;
            let held = crate::commands::cleanup::row_count(a.rows, id, a.rows.len() as int);
            &&& held < 100_000 ==> with_plan(a, pf).rows == a.rows.push(
                (id, text_member(pf, "path"@)->0, whole_of(member(pf, "size"@))),
            ) && with_plan(a, pf).truncated == a.truncated
            &&& held >= 100_000 ==> with_plan(a, pf).rows == a.rows && with_plan(
                a,
                pf,
            ).truncated.contains(id)
            &&& with_plan(a, pf).data == a.data
        }),
{
}

/// A line that reports an item adds the item; a line that is neither an item nor a planned file
/// adds nothing.
pub proof fn law_line_is_taken_in(a: Scanned, line: Seq<char>)
    requires
        behind(line, "@@PLANFILE@@"@) is None,
    ensures
        behind(line, "@@ITEM@@"@) is None ==> ingested(a, line) == (a, None::<JsonV>),
        behind(line, "@@ITEM@@"@) is Some && json_in(behind(line, "@@ITEM@@"@)->0) is Some && member(
            json_in(behind(line, "@@ITEM@@"@)->0)->0,
            "id"@,
        ) is Some && truthy(member(json_in(behind(line, "@@ITEM@@"@)->0)->0, "id"@)->0) ==> ingested(
            a,
            line,
        ) == (
            Scanned { data: a.data.push(json_in(behind(line, "@@ITEM@@"@)->0)->0), ..a },
            Some(json_in(behind(line, "@@ITEM@@"@)->0)->0),
        ),
{
}

/// Of an item exactly the planned files with its id are listed.
pub proof fn law_item_files(rows: Seq<PlanRow>, id: Seq<char>, n: int, i: int)
    requires
        0 <= i < n <= rows.len(),
    ensures
        rows[i].0 == id ==> item_files(rows, id, n).contains(file_value(rows[i])),
        item_files(rows, id, n).len() == count(n, of_item(rows, id)),
    decreases n,
{
    let now = item_files(rows, id, n);
    let before = item_files(rows, id, n - 1);
    if n > 1 {
        law_item_files(
            rows,
            id,
            n - 1,
            if i < n - 1 {
                i
            } else {
                0
            },
        );
    } else {
        assert(count(0, of_item(rows, id)) == 0);
    }
    if rows[i].0 == id {
        if i == n - 1 {
            assert(now[before.len() as int] == file_value(rows[i]));
        } else {
            let k = choose|k: int| 0 <= k < before.len() && before[k] == file_value(rows[i]);
            assert(now[k] == file_value(rows[i]));
        }
    }
}

/// The planned files of an item.
pub open spec fn of_item(rows: Seq<PlanRow>, id: Seq<char>) -> spec_fn(int) -> bool {
    |i: int| rows[i].0 == id
}

/// A planned file is told with its path and its size.
pub proof fn law_planned_file_is_told(r: PlanRow)
    ensures
        text_member(file_value(r), "path"@) == Some(r.1),
        member(file_value(r), "size"@) == Some(JsonV::Num(signed_dec(r.2))),
{
    lemma_proc_keys();
    lemma_member_at(file_value(r)->Obj_0, 0);
    lemma_member_at(file_value(r)->Obj_0, 1);
}

/// An item of a scan is told with its files, as cut off where some of them were not kept, and
/// else as it was reported.
pub proof fn law_scanned_item_is_told(it: JsonV, a: Scanned, key: Seq<char>)
    requires
        it is Obj,
    ensures
        array_member(with_files(it, a), "files"@) == Some(
            item_files(a.rows, id_or_empty(it), a.rows.len() as int),
        ),
        a.truncated.contains(id_or_empty(it)) ==> bool_member(
            with_files(it, a),
            "filesTruncated"@,
        ) == Some(true),
        key != "files"@ && key != "filesTruncated"@ ==> member(with_files(it, a), key) == member(
            it,
            key,
        ),
{
    lemma_list_keys();
    let v = JsonV::Arr(item_files(a.rows, id_or_empty(it), a.rows.len() as int));
    law_set_member(it, "files"@, v, key);
    let full = with_member(it, "files"@, v);
    law_set_member(full, "filesTruncated"@, JsonV::Bool(true), "files"@);
    law_set_member(full, "filesTruncated"@, JsonV::Bool(true), key);
}

/// A scan is told as done exactly where the scanner ended with code zero, and then with all its
/// items.
pub proof fn law_scan_is_told(code: i32, stderr: Seq<char>, a: Scanned)
    ensures
        bool_member(scan_reply(code, stderr, a), "success"@) == Some(code == 0),
        code == 0 ==> array_member(scan_reply(code, stderr, a), "data"@) == Some(scan_items(a)),
        scan_items(a).len() == a.data.len(),
        code != 0 && crate::text::trimmed(stderr).len() > 0 ==> text_member(
            scan_reply(code, stderr, a),
            "message"@,
        ) == Some(crate::text::trimmed(stderr)),
{
    law_replies(crate::commands::reply::complaint(stderr, "扫描失败"@), JsonV::Arr(scan_items(a)));
}

/// Categories are accepted exactly where they are a list of one to two hundred texts that are
/// not too long.
pub proof fn law_categories(a: Seq<JsonV>)
    ensures
        categories_in(Some(JsonV::Arr(a))) is Some <==> 1 <= a.len() <= 200 && forall|i: int|
            0 <= i < a.len() ==> (#[trigger] a[i]) is Str && a[i]->Str_0.len() <= 160,
        categories_in(Some(JsonV::Arr(a))) matches Some(t) ==> t.len() == a.len() && forall|i: int|
            0 <= i < a.len() ==> JsonV::Str(#[trigger] t[i]) == a[i],
        categories_in(None) is None,
{
    lemma_short(a, a.len() as int);
}

proof fn lemma_short(a: Seq<JsonV>, n: int)
    requires
        0 <= n <= a.len(),
    ensures
        short_texts(a, n) <==> forall|i: int|
            0 <= i < n ==> (#[trigger] a[i]) is Str && a[i]->Str_0.len() <= 160,
    decreases n,
{
    if n > 0 {
        lemma_short(a, n - 1);
        if forall|i: int| 0 <= i < n ==> (#[trigger] a[i]) is Str && a[i]->Str_0.len() <= 160 {
            assert(a[n - 1] is Str);
        }
    }
}

// ------------------------------------------------------------------------------ details

/// A list of files is told with how many there are in all, and as cut off where not all are
/// listed; six hundred are listed at most.
pub proof fn law_listed(kind: Seq<char>, total: JsonV, truncated: bool, files: Seq<JsonV>, n: nat)
    ensures
        ({
            let d = member(list_reply(kind, total, truncated, files), "data"@)->0;
            &&& bool_member(list_reply(kind, total, truncated, files), "success"@) == Some(true)
            &&& text_member(d, "kind"@) == Some(kind)
            &&& member(d, "total"@) == Some(total)
            &&& bool_member(d, "truncated"@) == Some(truncated)
            &&& array_member(d, "files"@) == Some(files)
        }),
        n <= 600 ==> shown_count(n) == n,
        n > 600 ==> shown_count(n) == 600,
{
    lemma_list_keys();
    let d = JsonV::Obj(
        seq![
            ("kind"@, JsonV::Str(kind)),
            ("total"@, total),
            ("truncated"@, JsonV::Bool(truncated)),
            ("files"@, JsonV::Arr(files)),
        ],
    );
    law_replies(Seq::empty(), d);
    lemma_member_at(d->Obj_0, 0);
    lemma_member_at(d->Obj_0, 1);
    lemma_member_at(d->Obj_0, 2);
    lemma_member_at(d->Obj_0, 3);
}

/// A listed file is told with its path and its size.
pub proof fn law_listed_file(f: JsonV)
    ensures
        member(f, "path"@) is Some ==> member(listed_file(f), "path"@) == member(f, "path"@),
        member(f, "size"@) is Some ==> member(listed_file(f), "size"@) == member(f, "size"@),
        member(f, "size"@) is None ==> member(listed_file(f), "size"@) == Some(JsonV::Num(dec(0))),
{
    lemma_proc_keys();
    lemma_member_at(listed_file(f)->Obj_0, 0);
    lemma_member_at(listed_file(f)->Obj_0, 1);
}

/// The tries that have removed something, or found it gone.
pub open spec fn try_done(targets: Seq<JsonV>, facts: Seq<Retry>, r: Roots) -> spec_fn(int) -> bool {
    |i: int| facts[i].exists && may_remove(targets[i], facts[i], r) && !(facts[i].removal is Failed)
}

/// The tries that have failed: what is protected, and what could not be removed.
pub open spec fn try_failed(targets: Seq<JsonV>, facts: Seq<Retry>, r: Roots) -> spec_fn(int) -> bool {
    |i: int| facts[i].exists && (!may_remove(targets[i], facts[i], r) || facts[i].removal is Failed)
}

/// What a try has freed: the size of what was removed.
pub open spec fn try_freed(targets: Seq<JsonV>, facts: Seq<Retry>, r: Roots) -> spec_fn(int) -> int {
    |i: int|
        if facts[i].exists && may_remove(targets[i], facts[i], r) && facts[i].removal is Done {
            facts[i].size as int
        } else {
            0
        }
}

/// Another try counts each of its targets as done, as failed, or as gone before, and frees what
/// was removed.
pub proof fn law_tried(targets: Seq<JsonV>, facts: Seq<Retry>, r: Roots, n: int)
    requires
        0 <= n <= targets.len(),
    ensures
        ({
            let t = tried(targets, facts, r, n);
            &&& t.ok == count(n, try_done(targets, facts, r))
            &&& t.failed == count(n, try_failed(targets, facts, r))
            &&& t.details.len() == n
            &&& (forall|k: int|
                0 <= k <= n ==> i64::MIN <= #[trigger] added(k, try_freed(targets, facts, r))
                    <= i64::MAX) ==> t.freed == added(n, try_freed(targets, facts, r))
        }),
    decreases n,
{
    if n > 0 {
        law_tried(targets, facts, r, n - 1);
        let f = try_freed(targets, facts, r);
        if forall|k: int| 0 <= k <= n ==> i64::MIN <= #[trigger] added(k, f) <= i64::MAX {
            assert(i64::MIN <= added(n, f) <= i64::MAX);
        }
    }
}

/// Another try is told as a success exactly where nothing failed, with the numbers of both.
pub proof fn law_try_is_told(t: Tried)
    ensures
        ({
            let d = member(tried_reply(t), "data"@)->0;
            &&& bool_member(tried_reply(t), "success"@) == Some(t.failed == 0)
            &&& member(tried_reply(t), "data"@) is Some
            &&& member(d, "totalFreed"@) == Some(JsonV::Num(signed_dec(t.freed)))
            &&& member(d, "ok"@) == Some(JsonV::Num(dec(t.ok)))
            &&& member(d, "failed"@) == Some(JsonV::Num(dec(t.failed)))
            &&& array_member(d, "details"@) == Some(t.details)
        }),
{
    lemma_reply_keys();
    lemma_tried_keys();
    let m = tried_reply(t)->Obj_0;
    lemma_member_at(m, 0);
    lemma_member_at(m, 1);
    let d = m[1].1->Obj_0;
    lemma_member_at(d, 0);
    lemma_member_at(d, 1);
    lemma_member_at(d, 2);
    lemma_member_at(d, 3);
}

/// Of the processes that were to be ended each but this one is told as ended or, with the
/// reason, as not.
pub proof fn law_ended(targets: Seq<JsonV>, results: Seq<Result<(), String>>, own: int, n: int, i: int)
    requires
        0 <= i < n <= targets.len(),
        n <= results.len(),
        pid_of(targets[i]) != own,
    ensures
        results[i] is Ok ==> ended(targets, results, own, n).0.contains(targets[i]),
        results[i] matches Err(e) ==> ended(targets, results, own, n).1.contains(
            with_member(targets[i], "message"@, JsonV::Str(e@)),
        ),
    decreases n,
{
    let now = ended(targets, results, own, n);
    let before = ended(targets, results, own, n - 1);
    if i == n - 1 {
        if results[i] is Ok {
            assert(now.0[before.0.len() as int] == targets[i]);
        } else {
            assert(now.1[before.1.len() as int] == with_member(
                targets[i],
                "message"@,
                JsonV::Str(results[i]->Err_0@),
            ));
        }
    } else {
        law_ended(targets, results, own, n - 1, i);
        if results[i] is Ok {
            let k = choose|k: int| 0 <= k < before.0.len() && before.0[k] == targets[i];
            assert(now.0[k] == targets[i]);
        } else {
            let x = with_member(targets[i], "message"@, JsonV::Str(results[i]->Err_0@));
            let k = choose|k: int| 0 <= k < before.1.len() && before.1[k] == x;
            assert(now.1[k] == x);
        }
    }
}

// -------------------------------------------------------------------------------- locks

/// Every file of an item that has a path is looked at, under the id of its item.
pub proof fn law_watched(list: Seq<JsonV>, id: Seq<char>, n: int, i: int)
    requires
        0 <= i < n <= list.len(),
        text_member(list[i], "path"@) is Some,
        text_member(list[i], "path"@)->0.len() > 0,
    ensures
        watched_files(list, id, n).contains(watched_value(text_member(list[i], "path"@)->0, id)),
    decreases n,
{
    let x = watched_value(text_member(list[i], "path"@)->0, id);
    let now = watched_files(list, id, n);
    let before = watched_files(list, id, n - 1);
    if i == n - 1 {
        assert(now[before.len() as int] == x);
    } else {
        law_watched(list, id, n - 1, i);
        let k = choose|k: int| 0 <= k < before.len() && before[k] == x;
        assert(now[k] == x);
    }
}

/// No more files are looked at than the limit allows, the first of them, and all where they are
/// not more.
pub proof fn law_looked_at(list: Seq<JsonV>)
    ensures
        list.len() <= 20_000 ==> looked_at(list) == list,
        list.len() > 20_000 ==> looked_at(list) == list.take(20_000),
{
}

/// A process that keeps a file in use is counted for its application, and told once, as critical
/// where the report says so or it is the shell; one that is not, may be ended.
pub proof fn law_process_is_told(u: InUse, p: JsonV, own: int, pid: int, app: Seq<char>)
    requires
        crate::value::integer_of(member(p, "pid"@)) == Some(pid),
        text_member(p, "app"@) == Some(app),
        app.len() > 0,
        pid != own,
    ensures
        ({
            let now = with_proc(u, p, own);
            &&& now.by_app == counted_up(u.by_app, app)
            &&& now.locked == u.locked
            &&& now.by_item == u.by_item
            &&& u.pids.contains(pid) ==> now.procs == u.procs
            &&& !u.pids.contains(pid) ==> now.procs == u.procs.push(
                proc_value(pid, app, is_critical(p, app)),
            ) && now.pids == u.pids.push(pid)
            &&& bool_member(proc_value(pid, app, is_critical(p, app)), "critical"@) == Some(
                is_critical(p, app),
            )
            &&& text_member(proc_value(pid, app, is_critical(p, app)), "app"@) == Some(app)
            &&& member(proc_value(pid, app, is_critical(p, app)), "pid"@) == Some(
                JsonV::Num(signed_dec(pid)),
            )
        }),
{
    lemma_proc_keys();
    let m = proc_value(pid, app, is_critical(p, app))->Obj_0;
    lemma_member_at(m, 0);
    lemma_member_at(m, 1);
    lemma_member_at(m, 2);
}

/// Exactly the processes that are not critical may be ended.
pub proof fn law_may_end(procs: Seq<JsonV>, n: int, i: int)
    requires
        0 <= i < n <= procs.len(),
        bool_member(procs[i], "critical"@) == Some(false),
    ensures
        may_end(procs, n).contains(procs[i]),
    decreases n,
{
    let now = may_end(procs, n);
    let before = may_end(procs, n - 1);
    if i == n - 1 {
        assert(now[before.len() as int] == procs[i]);
    } else {
        law_may_end(procs, n - 1, i);
        let k = choose|k: int| 0 <= k < before.len() && before[k] == procs[i];
        assert(now[k] == procs[i]);
    }
}

/// What is told of files in use: the files, how many each item and each application has, the
/// processes, how many were looked at, and whether that is all.
pub proof fn law_locks_are_told(u: InUse, scanned: nat, truncated: bool)
    ensures
        ({
            let r = locked_reply(u, scanned, truncated);
            &&& bool_member(r, "success"@) == Some(true)
            &&& array_member(r, "locked"@) == Some(u.locked)
            &&& member(r, "byApp"@) == Some(JsonV::Obj(u.by_app))
            &&& array_member(r, "procs"@) == Some(u.procs)
            &&& member(r, "lockedByItem"@) == Some(JsonV::Obj(u.by_item))
            &&& member(r, "scanned"@) == Some(JsonV::Num(dec(scanned)))
            &&& bool_member(r, "truncated"@) == Some(truncated)
        }),
{
    lemma_lock_keys();
    let m = locked_reply(u, scanned, truncated)->Obj_0;
    lemma_member_at(m, 0);
    lemma_member_at(m, 1);
    lemma_member_at(m, 2);
    lemma_member_at(m, 3);
    lemma_member_at(m, 4);
    lemma_member_at(m, 5);
    lemma_member_at(m, 6);
}

} // verus!
