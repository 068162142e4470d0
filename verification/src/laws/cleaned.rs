//! What becomes of items that are cleaned up.

use crate::commands::cleanup::id_or_empty;
use crate::commands::cleanup_execute::{
    error_count, failure_value, failures_of, moved_status, settled, stat_of, summary_of, to_move,
    Move,
};
use crate::json::{member, text_member, JsonV};
use crate::laws::count::{added, count};
use crate::laws::object::lemma_member_at;
use crate::numbers::signed_dec;
use crate::text::dec;
use crate::value::{bool_member, law_set_member, whole_of, with_member};
use vstd::prelude::*;

verus! {

/// The entries of an item that were moved.
pub open spec fn moved_for(entries: Seq<JsonV>, moves: Seq<Move>, id: Seq<char>) -> spec_fn(int) -> bool {
    |i: int| id_or_empty(entries[i]) == id && moves[i] == Move::Done
}

/// The entries of an item that were not.
pub open spec fn left_for(entries: Seq<JsonV>, moves: Seq<Move>, id: Seq<char>) -> spec_fn(int) -> bool {
    |i: int| id_or_empty(entries[i]) == id && moves[i] != Move::Done
}

/// What a moved entry of an item holds.
pub open spec fn bytes_for(entries: Seq<JsonV>, moves: Seq<Move>, id: Seq<char>) -> spec_fn(int) -> int {
    |i: int|
        if moved_for(entries, moves, id)(i) {
            whole_of(member(entries[i], "size"@))
        } else {
            0
        }
}

proof fn lemma_stat(entries: Seq<JsonV>, moves: Seq<Move>, id: Seq<char>, n: int)
    requires
        0 <= n <= entries.len(),
    ensures
        ({
            let s = stat_of(entries, moves, id, n);
            let ok = count(n, moved_for(entries, moves, id));
            let fail = count(n, left_for(entries, moves, id));
            &&& s.ok == ok
            &&& s.fail == fail
            &&& s.seen == (ok + fail > 0)
            &&& (forall|k: int|
                0 <= k <= n ==> i64::MIN <= #[trigger] added(k, bytes_for(entries, moves, id))
                    <= i64::MAX) ==> s.bytes == added(n, bytes_for(entries, moves, id))
        }),
    decreases n,
{
    if n > 0 {
        lemma_stat(entries, moves, id, n - 1);
        let f = bytes_for(entries, moves, id);
        if forall|k: int| 0 <= k <= n ==> i64::MIN <= #[trigger] added(k, f) <= i64::MAX {
            assert(i64::MIN <= added(n, f) <= i64::MAX);
        }
    }
}

proof fn lemma_keys()
    ensures
        "status"@ != "freed"@,
        "status"@ != "message"@,
        "status"@ != "recycledBytes"@,
        "freed"@ != "message"@,
        "freed"@ != "recycledBytes"@,
        "message"@ != "recycledBytes"@,
{
    reveal_strlit("status");
    reveal_strlit("freed");
    reveal_strlit("message");
    reveal_strlit("recycledBytes");
    assert("status"@[0] != "message"@[0]);
    assert("status"@.len() == 6 && "freed"@.len() == 5 && "message"@.len() == 7);
    assert("recycledBytes"@.len() == 13);
}

/// An item that was to be moved to the recycle bin is told as done only where none of its
/// entries was left, as done in part where some were moved and some left, and as failed where
/// all were left; what lies in the bin frees nothing; everything else is told as before.
pub proof fn law_settled_tells_what_was_left(d: JsonV, entries: Seq<JsonV>, moves: Seq<Move>, key: Seq<char>)
    requires
        d is Obj,
    ensures
        ({
            let now = settled(d, entries, moves);
            let id = id_or_empty(d);
            let n = entries.len() as int;
            let moved = count(n, moved_for(entries, moves, id));
            let left = count(n, left_for(entries, moves, id));
            &&& text_member(d, "status"@) != Some("recycle"@) ==> now == d
            &&& text_member(d, "status"@) == Some("recycle"@) ==> {
                &&& left == 0 ==> text_member(now, "status"@) == Some("ok"@)
                &&& left > 0 && moved > 0 ==> text_member(now, "status"@) == Some("partial"@)
                    && text_member(now, "message"@) == Some(
                    "已移入回收站 "@ + dec(moved) + " 项，"@ + dec(left) + " 项失败（被占用）"@,
                )
                &&& left > 0 && moved == 0 ==> text_member(now, "status"@) == Some("error"@)
                &&& member(now, "freed"@) == Some(JsonV::Num(dec(0)))
                &&& moved + left > 0 && (forall|k: int|
                    0 <= k <= n ==> i64::MIN <= #[trigger] added(k, bytes_for(entries, moves, id))
                        <= i64::MAX) ==> member(now, "recycledBytes"@) == Some(
                    JsonV::Num(signed_dec(added(n, bytes_for(entries, moves, id)))),
                )
                &&& key != "status"@ && key != "freed"@ && key != "message"@ && key
                    != "recycledBytes"@ ==> member(now, key) == member(d, key)
            }
        }),
{
    let id = id_or_empty(d);
    let n = entries.len() as int;
    lemma_stat(entries, moves, id, n);
    lemma_keys();
    let s = stat_of(entries, moves, id, n);
    if to_move(d) {
        if !s.seen {
            let a = with_member(d, "status"@, JsonV::Str("ok"@));
            let b = with_member(a, "freed"@, JsonV::Num(dec(0)));
            law_set_member(d, "status"@, JsonV::Str("ok"@), key);
            law_set_member(a, "freed"@, JsonV::Num(dec(0)), "status"@);
            law_set_member(a, "freed"@, JsonV::Num(dec(0)), key);
            law_set_member(b, "message"@, JsonV::Str("无可清理目标"@), "status"@);
            law_set_member(b, "message"@, JsonV::Str("无可清理目标"@), "freed"@);
            law_set_member(b, "message"@, JsonV::Str("无可清理目标"@), key);
        } else {
            let st = JsonV::Str(moved_status(s).0);
            let ms = JsonV::Str(moved_status(s).1);
            let by = JsonV::Num(signed_dec(s.bytes));
            let a = with_member(d, "freed"@, JsonV::Num(dec(0)));
            let b = with_member(a, "recycledBytes"@, by);
            let c = with_member(b, "status"@, st);
            law_set_member(d, "freed"@, JsonV::Num(dec(0)), key);
            law_set_member(a, "recycledBytes"@, by, "freed"@);
            law_set_member(a, "recycledBytes"@, by, key);
            law_set_member(b, "status"@, st, "freed"@);
            law_set_member(b, "status"@, st, "recycledBytes"@);
            law_set_member(b, "status"@, st, key);
            law_set_member(c, "message"@, ms, "freed"@);
            law_set_member(c, "message"@, ms, "recycledBytes"@);
            law_set_member(c, "message"@, ms, "status"@);
            law_set_member(c, "message"@, ms, key);
        }
    }
}

/// Whether a detail has a status.
pub open spec fn ended(details: Seq<JsonV>, status: Seq<char>) -> spec_fn(int) -> bool {
    |i: int| text_member(details[i], "status"@) == Some(status)
}

/// What a detail says was freed.
pub open spec fn freed_by(details: Seq<JsonV>) -> spec_fn(int) -> int {
    |i: int| whole_of(member(details[i], "freed"@))
}

/// The sums over details count each of them by its own status, and add up what each has
/// freed.
pub proof fn law_summary_counts(details: Seq<JsonV>, n: int)
    requires
        0 <= n <= details.len(),
    ensures
        summary_of(details, n).success == count(n, ended(details, "ok"@)),
        summary_of(details, n).partial == count(n, ended(details, "partial"@)),
        summary_of(details, n).skipped == count(n, ended(details, "skip"@)),
        error_count(details, n) == count(n, ended(details, "error"@)),
        (forall|k: int|
            0 <= k <= n ==> i64::MIN <= #[trigger] added(k, freed_by(details)) <= i64::MAX)
            ==> summary_of(details, n).freed == added(n, freed_by(details)),
    decreases n,
{
    if n > 0 {
        law_summary_counts(details, n - 1);
        let f = freed_by(details);
        if forall|k: int| 0 <= k <= n ==> i64::MIN <= #[trigger] added(k, f) <= i64::MAX {
            assert(i64::MIN <= added(n, f) <= i64::MAX);
        }
    }
}

/// The positions of entries that failed.
pub open spec fn failed_at(moves: Seq<Move>) -> spec_fn(int) -> bool {
    |i: int| moves[i] == Move::Failed
}

/// Every entry that could not be moved is kept for another try, with its path, and no other.
pub proof fn law_failures_are_kept(entries: Seq<JsonV>, moves: Seq<Move>, n: int)
    requires
        0 <= n <= entries.len(),
        n <= moves.len(),
    ensures
        failures_of(entries, moves, n).len() == count(n, failed_at(moves)),
        forall|i: int|
            0 <= i < n && moves[i] == Move::Failed ==> failures_of(entries, moves, n).contains(
                failure_value(#[trigger] entries[i]),
            ),
        forall|k: int|
            0 <= k < failures_of(entries, moves, n).len() ==> exists|i: int|
                0 <= i < n && moves[i] == Move::Failed && #[trigger] failures_of(
                    entries,
                    moves,
                    n,
                )[k] == failure_value(#[trigger] entries[i]),
    decreases n,
{
    if n > 0 {
        law_failures_are_kept(entries, moves, n - 1);
        let before = failures_of(entries, moves, n - 1);
        let now = failures_of(entries, moves, n);
        assert forall|i: int| 0 <= i < n && moves[i] == Move::Failed implies now.contains(
            failure_value(#[trigger] entries[i]),
        ) by {
            if i < n - 1 {
                let k = choose|k: int| 0 <= k < before.len() && before[k] == failure_value(entries[i]);
                assert(now[k] == failure_value(entries[i]));
            } else {
                assert(now[before.len() as int] == failure_value(entries[i]));
            }
        }
        assert forall|k: int| 0 <= k < now.len() implies exists|i: int|
            0 <= i < n && moves[i] == Move::Failed && #[trigger] now[k] == failure_value(
                #[trigger] entries[i],
            ) by {
            if k < before.len() {
                assert(now[k] == before[k]);
                let i = choose|i: int|
                    0 <= i < n - 1 && moves[i] == Move::Failed && before[k] == failure_value(
                        #[trigger] entries[i],
                    );
                assert(now[k] == failure_value(entries[i]));
            } else {
                assert(now[k] == failure_value(entries[n - 1]));
            }
        }
    }
}

/// What is kept of an entry that failed tells where it lies, how large it is and whether it is
/// a directory.
pub proof fn law_failure_is_told(e: JsonV)
    ensures
        text_member(failure_value(e), "path"@) == Some(
            match text_member(e, "path"@) {
                Some(p) => p,
                None => Seq::empty(),
            },
        ),
        bool_member(failure_value(e), "isDir"@) == Some(bool_member(e, "isDir"@) == Some(true)),
        member(failure_value(e), "size"@) == Some(
            JsonV::Num(signed_dec(whole_of(member(e, "size"@)))),
        ),
        member(e, "id"@) is Some ==> member(failure_value(e), "id"@) == member(e, "id"@),
{
    reveal_strlit("id");
    reveal_strlit("path");
    reveal_strlit("size");
    reveal_strlit("isDir");
    assert("id"@.len() == 2 && "path"@.len() == 4 && "size"@.len() == 4 && "isDir"@.len() == 5);
    assert("path"@[0] != "size"@[0]);
    let m = failure_value(e)->Obj_0;
    lemma_member_at(m, 0);
    lemma_member_at(m, 1);
    lemma_member_at(m, 2);
    lemma_member_at(m, 3);
}

} // verus!
