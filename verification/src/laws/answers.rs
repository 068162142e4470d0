//! What holds of the answers that commands put together: of scans and their progress, of
//! details, menus, files and fonts.

use crate::cleanup_scan::{lines_text, locked_end, locked_lines, locked_outcome};
use crate::commands::aidesc::usable_usage;
use crate::commands::appearance::{image_entry, images_reply};
use crate::commands::benchhistory::{digit36, low_digits, record_id, records_in, stirred};
use crate::commands::cleanup::{
    ingested, ingested_all, nothing_scanned, progress, progress_of, Scanned,
};
use crate::commands::cleanup_detail::{
    detail_outcome, known_files, listing_reply, names_files, safe_path, Detail, Listing,
};
use crate::commands::cleanup_execute::{known, result_body, unreadable_reply};
use crate::commands::cleanup_locks::{
    check_outcome, in_use, looked_at, may_end, question_text, watched, watched_files,
};
use crate::commands::contextmenu::{
    backup_items, blocked_reply, cache_value, cached_reply, editor_reply, icon_class, icon_items,
    icons_reply, named_item, named_items, snapshot_after, PsOutput,
};
use crate::commands::elevate::{handshake_in, writer_of};
use crate::commands::fileclean::{deleted_reply, image_data, refused_scan, scan_progress};
use crate::commands::finder::{line_item, nothing_left};
use crate::commands::fonts::{
    brought_font, brought_summary, family_in, fonts_reply, plain_list, without_font_ext,
    SystemFonts,
};
use crate::commands::models::{given_url, keyless_reply, trial_url};
use crate::commands::netspeed::seconds_for;
use crate::commands::rules_update::{fetch_outcome, first_success, Fetched};
use crate::json::{array_member, member, text_member, JsonV};
use crate::laws::cleanup::{law_listed, law_locks_are_told, law_looked_at, law_replies};
use crate::laws::object::lemma_member_at;
use crate::numbers::signed_dec;
use crate::text::{ascii_lowercase, behind, dec, lines_in, occurs, trimmed};
use crate::value::{bool_member, json_in};
use crate::version::{below, mark_of, nothing};
use crate::world::World;
use vstd::prelude::*;

verus! {

proof fn lemma_keys()
    ensures
        "success"@ != "data"@,
        "success"@ != "done"@,
        "success"@ != "total"@,
        "success"@ != "item"@,
        "success"@ != "message"@,
        "success"@ != "raw"@,
        "success"@ != "cached"@,
        "success"@ != "cachedAt"@,
        "success"@ != "timestamp"@,
        "success"@ != "elevated"@,
        "success"@ != "entries"@,
        "success"@ != "scanType"@,
        "success"@ != "size"@,
        "success"@ != "recycled"@,
        "success"@ != "manifestPath"@,
        "data"@ != "done"@,
        "data"@ != "total"@,
        "data"@ != "item"@,
        "data"@ != "message"@,
        "data"@ != "raw"@,
        "data"@ != "cached"@,
        "data"@ != "cachedAt"@,
        "data"@ != "timestamp"@,
        "data"@ != "elevated"@,
        "data"@ != "entries"@,
        "data"@ != "scanType"@,
        "data"@ != "size"@,
        "data"@ != "recycled"@,
        "data"@ != "manifestPath"@,
        "done"@ != "total"@,
        "done"@ != "item"@,
        "done"@ != "message"@,
        "done"@ != "raw"@,
        "done"@ != "cached"@,
        "done"@ != "cachedAt"@,
        "done"@ != "timestamp"@,
        "done"@ != "elevated"@,
        "done"@ != "entries"@,
        "done"@ != "scanType"@,
        "done"@ != "size"@,
        "done"@ != "recycled"@,
        "done"@ != "manifestPath"@,
        "total"@ != "item"@,
        "total"@ != "message"@,
        "total"@ != "raw"@,
        "total"@ != "cached"@,
        "total"@ != "cachedAt"@,
        "total"@ != "timestamp"@,
        "total"@ != "elevated"@,
        "total"@ != "entries"@,
        "total"@ != "scanType"@,
        "total"@ != "size"@,
        "total"@ != "recycled"@,
        "total"@ != "manifestPath"@,
        "item"@ != "message"@,
        "item"@ != "raw"@,
        "item"@ != "cached"@,
        "item"@ != "cachedAt"@,
        "item"@ != "timestamp"@,
        "item"@ != "elevated"@,
        "item"@ != "entries"@,
        "item"@ != "scanType"@,
        "item"@ != "size"@,
        "item"@ != "recycled"@,
        "item"@ != "manifestPath"@,
        "message"@ != "raw"@,
        "message"@ != "cached"@,
        "message"@ != "cachedAt"@,
        "message"@ != "timestamp"@,
        "message"@ != "elevated"@,
        "message"@ != "entries"@,
        "message"@ != "scanType"@,
        "message"@ != "size"@,
        "message"@ != "recycled"@,
        "message"@ != "manifestPath"@,
        "raw"@ != "cached"@,
        "raw"@ != "cachedAt"@,
        "raw"@ != "timestamp"@,
        "raw"@ != "elevated"@,
        "raw"@ != "entries"@,
        "raw"@ != "scanType"@,
        "raw"@ != "size"@,
        "raw"@ != "recycled"@,
        "raw"@ != "manifestPath"@,
        "cached"@ != "cachedAt"@,
        "cached"@ != "timestamp"@,
        "cached"@ != "elevated"@,
        "cached"@ != "entries"@,
        "cached"@ != "scanType"@,
        "cached"@ != "size"@,
        "cached"@ != "recycled"@,
        "cached"@ != "manifestPath"@,
        "cachedAt"@ != "timestamp"@,
        "cachedAt"@ != "elevated"@,
        "cachedAt"@ != "entries"@,
        "cachedAt"@ != "scanType"@,
        "cachedAt"@ != "size"@,
        "cachedAt"@ != "recycled"@,
        "cachedAt"@ != "manifestPath"@,
        "timestamp"@ != "elevated"@,
        "timestamp"@ != "entries"@,
        "timestamp"@ != "scanType"@,
        "timestamp"@ != "size"@,
        "timestamp"@ != "recycled"@,
        "timestamp"@ != "manifestPath"@,
        "elevated"@ != "entries"@,
        "elevated"@ != "scanType"@,
        "elevated"@ != "size"@,
        "elevated"@ != "recycled"@,
        "elevated"@ != "manifestPath"@,
        "entries"@ != "scanType"@,
        "entries"@ != "size"@,
        "entries"@ != "recycled"@,
        "entries"@ != "manifestPath"@,
        "scanType"@ != "size"@,
        "scanType"@ != "recycled"@,
        "scanType"@ != "manifestPath"@,
        "size"@ != "recycled"@,
        "size"@ != "manifestPath"@,
        "recycled"@ != "manifestPath"@,
{
    reveal_strlit("success");
    reveal_strlit("data");
    reveal_strlit("done");
    reveal_strlit("total");
    reveal_strlit("item");
    reveal_strlit("message");
    reveal_strlit("raw");
    reveal_strlit("cached");
    reveal_strlit("cachedAt");
    reveal_strlit("timestamp");
    reveal_strlit("elevated");
    reveal_strlit("entries");
    reveal_strlit("scanType");
    reveal_strlit("size");
    reveal_strlit("recycled");
    reveal_strlit("manifestPath");
    assert("success"@.len() == 7);
    assert("data"@.len() == 4);
    assert("done"@.len() == 4);
    assert("total"@.len() == 5);
    assert("item"@.len() == 4);
    assert("message"@.len() == 7);
    assert("raw"@.len() == 3);
    assert("cached"@.len() == 6);
    assert("cachedAt"@.len() == 8);
    assert("timestamp"@.len() == 9);
    assert("elevated"@.len() == 8);
    assert("entries"@.len() == 7);
    assert("scanType"@.len() == 8);
    assert("size"@.len() == 4);
    assert("recycled"@.len() == 8);
    assert("manifestPath"@.len() == 12);
    assert("success"@[0] != "message"@[0]);
    assert("success"@[0] != "entries"@[0]);
    assert("data"@[1] != "done"@[1]);
    assert("data"@[0] != "item"@[0]);
    assert("data"@[0] != "size"@[0]);
    assert("done"@[0] != "item"@[0]);
    assert("done"@[0] != "size"@[0]);
    assert("item"@[0] != "size"@[0]);
    assert("message"@[0] != "entries"@[0]);
    assert("cachedAt"@[0] != "elevated"@[0]);
    assert("cachedAt"@[0] != "scanType"@[0]);
    assert("cachedAt"@[0] != "recycled"@[0]);
    assert("elevated"@[0] != "scanType"@[0]);
    assert("elevated"@[0] != "recycled"@[0]);
    assert("scanType"@[0] != "recycled"@[0]);
}

proof fn lemma_more_keys()
    ensures
        "totalFreed"@ != "success"@,
        "totalFreed"@ != "failed"@,
        "totalFreed"@ != "skipped"@,
        "totalFreed"@ != "recycled"@,
        "totalFreed"@ != "details"@,
        "totalFreed"@ != "manifestPath"@,
        "totalFreed"@ != "verified"@,
        "totalFreed"@ != "reply"@,
        "totalFreed"@ != "emptyKey"@,
        "totalFreed"@ != "list"@,
        "totalFreed"@ != "settings"@,
        "totalFreed"@ != "imported"@,
        "totalFreed"@ != "family"@,
        "totalFreed"@ != "sourcePath"@,
        "totalFreed"@ != "copyPath"@,
        "totalFreed"@ != "path"@,
        "totalFreed"@ != "name"@,
        "totalFreed"@ != "date"@,
        "totalFreed"@ != "count"@,
        "totalFreed"@ != "clsid"@,
        "totalFreed"@ != "message"@,
        "totalFreed"@ != "data"@,
        "success"@ != "failed"@,
        "success"@ != "skipped"@,
        "success"@ != "recycled"@,
        "success"@ != "details"@,
        "success"@ != "manifestPath"@,
        "success"@ != "verified"@,
        "success"@ != "reply"@,
        "success"@ != "emptyKey"@,
        "success"@ != "list"@,
        "success"@ != "settings"@,
        "success"@ != "imported"@,
        "success"@ != "family"@,
        "success"@ != "sourcePath"@,
        "success"@ != "copyPath"@,
        "success"@ != "path"@,
        "success"@ != "name"@,
        "success"@ != "date"@,
        "success"@ != "count"@,
        "success"@ != "clsid"@,
        "success"@ != "message"@,
        "success"@ != "data"@,
        "failed"@ != "skipped"@,
        "failed"@ != "recycled"@,
        "failed"@ != "details"@,
        "failed"@ != "manifestPath"@,
        "failed"@ != "verified"@,
        "failed"@ != "reply"@,
        "failed"@ != "emptyKey"@,
        "failed"@ != "list"@,
        "failed"@ != "settings"@,
        "failed"@ != "imported"@,
        "failed"@ != "family"@,
        "failed"@ != "sourcePath"@,
        "failed"@ != "copyPath"@,
        "failed"@ != "path"@,
        "failed"@ != "name"@,
        "failed"@ != "date"@,
        "failed"@ != "count"@,
        "failed"@ != "clsid"@,
        "failed"@ != "message"@,
        "failed"@ != "data"@,
        "skipped"@ != "recycled"@,
        "skipped"@ != "details"@,
        "skipped"@ != "manifestPath"@,
        "skipped"@ != "verified"@,
        "skipped"@ != "reply"@,
        "skipped"@ != "emptyKey"@,
        "skipped"@ != "list"@,
        "skipped"@ != "settings"@,
        "skipped"@ != "imported"@,
        "skipped"@ != "family"@,
        "skipped"@ != "sourcePath"@,
        "skipped"@ != "copyPath"@,
        "skipped"@ != "path"@,
        "skipped"@ != "name"@,
        "skipped"@ != "date"@,
        "skipped"@ != "count"@,
        "skipped"@ != "clsid"@,
        "skipped"@ != "message"@,
        "skipped"@ != "data"@,
        "recycled"@ != "details"@,
        "recycled"@ != "manifestPath"@,
        "recycled"@ != "verified"@,
        "recycled"@ != "reply"@,
        "recycled"@ != "emptyKey"@,
        "recycled"@ != "list"@,
        "recycled"@ != "settings"@,
        "recycled"@ != "imported"@,
        "recycled"@ != "family"@,
        "recycled"@ != "sourcePath"@,
        "recycled"@ != "copyPath"@,
        "recycled"@ != "path"@,
        "recycled"@ != "name"@,
        "recycled"@ != "date"@,
        "recycled"@ != "count"@,
        "recycled"@ != "clsid"@,
        "recycled"@ != "message"@,
        "recycled"@ != "data"@,
        "details"@ != "manifestPath"@,
        "details"@ != "verified"@,
        "details"@ != "reply"@,
        "details"@ != "emptyKey"@,
        "details"@ != "list"@,
        "details"@ != "settings"@,
        "details"@ != "imported"@,
        "details"@ != "family"@,
        "details"@ != "sourcePath"@,
        "details"@ != "copyPath"@,
        "details"@ != "path"@,
        "details"@ != "name"@,
        "details"@ != "date"@,
        "details"@ != "count"@,
        "details"@ != "clsid"@,
        "details"@ != "message"@,
        "details"@ != "data"@,
        "manifestPath"@ != "verified"@,
        "manifestPath"@ != "reply"@,
        "manifestPath"@ != "emptyKey"@,
        "manifestPath"@ != "list"@,
        "manifestPath"@ != "settings"@,
        "manifestPath"@ != "imported"@,
        "manifestPath"@ != "family"@,
        "manifestPath"@ != "sourcePath"@,
        "manifestPath"@ != "copyPath"@,
        "manifestPath"@ != "path"@,
        "manifestPath"@ != "name"@,
        "manifestPath"@ != "date"@,
        "manifestPath"@ != "count"@,
        "manifestPath"@ != "clsid"@,
        "manifestPath"@ != "message"@,
        "manifestPath"@ != "data"@,
        "verified"@ != "reply"@,
        "verified"@ != "emptyKey"@,
        "verified"@ != "list"@,
        "verified"@ != "settings"@,
        "verified"@ != "imported"@,
        "verified"@ != "family"@,
        "verified"@ != "sourcePath"@,
        "verified"@ != "copyPath"@,
        "verified"@ != "path"@,
        "verified"@ != "name"@,
        "verified"@ != "date"@,
        "verified"@ != "count"@,
        "verified"@ != "clsid"@,
        "verified"@ != "message"@,
        "verified"@ != "data"@,
        "reply"@ != "emptyKey"@,
        "reply"@ != "list"@,
        "reply"@ != "settings"@,
        "reply"@ != "imported"@,
        "reply"@ != "family"@,
        "reply"@ != "sourcePath"@,
        "reply"@ != "copyPath"@,
        "reply"@ != "path"@,
        "reply"@ != "name"@,
        "reply"@ != "date"@,
        "reply"@ != "count"@,
        "reply"@ != "clsid"@,
        "reply"@ != "message"@,
        "reply"@ != "data"@,
        "emptyKey"@ != "list"@,
        "emptyKey"@ != "settings"@,
        "emptyKey"@ != "imported"@,
        "emptyKey"@ != "family"@,
        "emptyKey"@ != "sourcePath"@,
        "emptyKey"@ != "copyPath"@,
        "emptyKey"@ != "path"@,
        "emptyKey"@ != "name"@,
        "emptyKey"@ != "date"@,
        "emptyKey"@ != "count"@,
        "emptyKey"@ != "clsid"@,
        "emptyKey"@ != "message"@,
        "emptyKey"@ != "data"@,
        "list"@ != "settings"@,
        "list"@ != "imported"@,
        "list"@ != "family"@,
        "list"@ != "sourcePath"@,
        "list"@ != "copyPath"@,
        "list"@ != "path"@,
        "list"@ != "name"@,
        "list"@ != "date"@,
        "list"@ != "count"@,
        "list"@ != "clsid"@,
        "list"@ != "message"@,
        "list"@ != "data"@,
        "settings"@ != "imported"@,
        "settings"@ != "family"@,
        "settings"@ != "sourcePath"@,
        "settings"@ != "copyPath"@,
        "settings"@ != "path"@,
        "settings"@ != "name"@,
        "settings"@ != "date"@,
        "settings"@ != "count"@,
        "settings"@ != "clsid"@,
        "settings"@ != "message"@,
        "settings"@ != "data"@,
        "imported"@ != "family"@,
        "imported"@ != "sourcePath"@,
        "imported"@ != "copyPath"@,
        "imported"@ != "path"@,
        "imported"@ != "name"@,
        "imported"@ != "date"@,
        "imported"@ != "count"@,
        "imported"@ != "clsid"@,
        "imported"@ != "message"@,
        "imported"@ != "data"@,
        "family"@ != "sourcePath"@,
        "family"@ != "copyPath"@,
        "family"@ != "path"@,
        "family"@ != "name"@,
        "family"@ != "date"@,
        "family"@ != "count"@,
        "family"@ != "clsid"@,
        "family"@ != "message"@,
        "family"@ != "data"@,
        "sourcePath"@ != "copyPath"@,
        "sourcePath"@ != "path"@,
        "sourcePath"@ != "name"@,
        "sourcePath"@ != "date"@,
        "sourcePath"@ != "count"@,
        "sourcePath"@ != "clsid"@,
        "sourcePath"@ != "message"@,
        "sourcePath"@ != "data"@,
        "copyPath"@ != "path"@,
        "copyPath"@ != "name"@,
        "copyPath"@ != "date"@,
        "copyPath"@ != "count"@,
        "copyPath"@ != "clsid"@,
        "copyPath"@ != "message"@,
        "copyPath"@ != "data"@,
        "path"@ != "name"@,
        "path"@ != "date"@,
        "path"@ != "count"@,
        "path"@ != "clsid"@,
        "path"@ != "message"@,
        "path"@ != "data"@,
        "name"@ != "date"@,
        "name"@ != "count"@,
        "name"@ != "clsid"@,
        "name"@ != "message"@,
        "name"@ != "data"@,
        "date"@ != "count"@,
        "date"@ != "clsid"@,
        "date"@ != "message"@,
        "date"@ != "data"@,
        "count"@ != "clsid"@,
        "count"@ != "message"@,
        "count"@ != "data"@,
        "clsid"@ != "message"@,
        "clsid"@ != "data"@,
        "message"@ != "data"@,
{
    reveal_strlit("totalFreed");
    reveal_strlit("success");
    reveal_strlit("failed");
    reveal_strlit("skipped");
    reveal_strlit("recycled");
    reveal_strlit("details");
    reveal_strlit("manifestPath");
    reveal_strlit("verified");
    reveal_strlit("reply");
    reveal_strlit("emptyKey");
    reveal_strlit("list");
    reveal_strlit("settings");
    reveal_strlit("imported");
    reveal_strlit("family");
    reveal_strlit("sourcePath");
    reveal_strlit("copyPath");
    reveal_strlit("path");
    reveal_strlit("name");
    reveal_strlit("date");
    reveal_strlit("count");
    reveal_strlit("clsid");
    reveal_strlit("message");
    reveal_strlit("data");
    assert("totalFreed"@.len() == 10);
    assert("success"@.len() == 7);
    assert("failed"@.len() == 6);
    assert("skipped"@.len() == 7);
    assert("recycled"@.len() == 8);
    assert("details"@.len() == 7);
    assert("manifestPath"@.len() == 12);
    assert("verified"@.len() == 8);
    assert("reply"@.len() == 5);
    assert("emptyKey"@.len() == 8);
    assert("list"@.len() == 4);
    assert("settings"@.len() == 8);
    assert("imported"@.len() == 8);
    assert("family"@.len() == 6);
    assert("sourcePath"@.len() == 10);
    assert("copyPath"@.len() == 8);
    assert("path"@.len() == 4);
    assert("name"@.len() == 4);
    assert("date"@.len() == 4);
    assert("count"@.len() == 5);
    assert("clsid"@.len() == 5);
    assert("message"@.len() == 7);
    assert("data"@.len() == 4);
    assert("totalFreed"@[0] != "sourcePath"@[0]);
    assert("success"@[1] != "skipped"@[1]);
    assert("success"@[0] != "details"@[0]);
    assert("success"@[0] != "message"@[0]);
    assert("failed"@[2] != "family"@[2]);
    assert("skipped"@[0] != "details"@[0]);
    assert("skipped"@[0] != "message"@[0]);
    assert("recycled"@[0] != "verified"@[0]);
    assert("recycled"@[0] != "emptyKey"@[0]);
    assert("recycled"@[0] != "settings"@[0]);
    assert("recycled"@[0] != "imported"@[0]);
    assert("recycled"@[0] != "copyPath"@[0]);
    assert("details"@[0] != "message"@[0]);
    assert("verified"@[0] != "emptyKey"@[0]);
    assert("verified"@[0] != "settings"@[0]);
    assert("verified"@[0] != "imported"@[0]);
    assert("verified"@[0] != "copyPath"@[0]);
    assert("reply"@[0] != "count"@[0]);
    assert("reply"@[0] != "clsid"@[0]);
    assert("emptyKey"@[0] != "settings"@[0]);
    assert("emptyKey"@[0] != "imported"@[0]);
    assert("emptyKey"@[0] != "copyPath"@[0]);
    assert("list"@[0] != "path"@[0]);
    assert("list"@[0] != "name"@[0]);
    assert("list"@[0] != "date"@[0]);
    assert("list"@[0] != "data"@[0]);
    assert("settings"@[0] != "imported"@[0]);
    assert("settings"@[0] != "copyPath"@[0]);
    assert("imported"@[0] != "copyPath"@[0]);
    assert("path"@[0] != "name"@[0]);
    assert("path"@[0] != "date"@[0]);
    assert("path"@[0] != "data"@[0]);
    assert("name"@[0] != "date"@[0]);
    assert("name"@[0] != "data"@[0]);
    assert("date"@[3] != "data"@[3]);
    assert("count"@[1] != "clsid"@[1]);
}

// ------------------------------------------------------------------------------- scans

/// Every item that a scan told of is taken in, and none is lost by the lines behind it.
pub proof fn law_items_are_taken_in(a: Scanned, list: Seq<Seq<char>>, n: int, i: int)
    requires
        0 <= i < n <= list.len(),
        ingested(ingested_all(a, list, i), list[i]).1 is Some,
    ensures
        ingested_all(a, list, n).data.contains(ingested(ingested_all(a, list, i), list[i]).1->0),
    decreases n,
{
    let item = ingested(ingested_all(a, list, i), list[i]).1->0;
    let before = ingested_all(a, list, n - 1);
    let now = ingested_all(a, list, n);
    if i == n - 1 {
        assert(now.data.last() == item);
    } else {
        law_items_are_taken_in(a, list, n - 1, i);
        let j = choose|j: int| 0 <= j < before.data.len() && before.data[j] == item;
        assert(now.data[j] == item);
    }
}

/// While a scan runs each item is told once, with how many there are by then: the first with
/// one, the next with two and so on up to all that were taken in.
pub proof fn law_progress_counts(list: Seq<Seq<char>>, n: int, total: nat, k: int)
    requires
        0 <= n <= list.len(),
    ensures
        progress_of(nothing_scanned(), list, n, total).len() == ingested_all(
            nothing_scanned(),
            list,
            n,
        ).data.len(),
        0 <= k < progress_of(nothing_scanned(), list, n, total).len() ==> {
            let p = progress_of(nothing_scanned(), list, n, total)[k];
            &&& member(p, "done"@) == Some(JsonV::Num(dec((k + 1) as nat)))
            &&& member(p, "total"@) == Some(JsonV::Num(dec(total)))
            &&& member(p, "item"@) == Some(ingested_all(nothing_scanned(), list, n).data[k])
        },
    decreases n,
{
    lemma_keys();
    if n > 0 {
        law_progress_counts(list, n - 1, total, k);
        let before = ingested_all(nothing_scanned(), list, n - 1);
        let now = ingested(before, list[n - 1]);
        let p = progress_of(nothing_scanned(), list, n, total);
        if now.1 is Some && k == p.len() - 1 {
            assert(p[k] == progress(now.0.data.len(), total, now.1->0));
            lemma_member_at(p[k]->Obj_0, 0);
            lemma_member_at(p[k]->Obj_0, 1);
            lemma_member_at(p[k]->Obj_0, 2);
        }
    }
}

/// What a cleanup printed is read from its lines without the marks; where nothing is left of
/// them, from all it printed.
pub proof fn law_result_body(clean: Seq<Seq<char>>, stripped: Seq<char>)
    ensures
        trimmed(crate::text::joined(clean, "\n"@)).len() > 0 ==> result_body(clean, stripped)
            == trimmed(crate::text::joined(clean, "\n"@)),
        trimmed(crate::text::joined(clean, "\n"@)).len() == 0 ==> result_body(clean, stripped)
            == trimmed(stripped),
        bool_member(unreadable_reply(stripped), "success"@) == Some(false),
        text_member(unreadable_reply(stripped), "raw"@) == Some(stripped),
{
    lemma_keys();
    lemma_member_at(unreadable_reply(stripped)->Obj_0, 0);
    lemma_member_at(unreadable_reply(stripped)->Obj_0, 2);
}

// ------------------------------------------------------------------------------ in use

/// Of the items that are asked for every file of a known one is looked at.
pub proof fn law_watched_items(
    ids: Seq<JsonV>,
    snapshot: Seq<JsonV>,
    n: int,
    k: int,
    files: Seq<JsonV>,
    e: JsonV,
)
    requires
        0 <= k < n <= ids.len(),
        ids[k] is Str,
        known(snapshot, ids[k]->Str_0) is Some,
        array_member(known(snapshot, ids[k]->Str_0)->0, "files"@) == Some(files),
        watched_files(files, ids[k]->Str_0, files.len() as int).contains(e),
    ensures
        watched(ids, snapshot, n).contains(e),
    decreases n,
{
    let all = watched(ids, snapshot, n);
    let before = watched(ids, snapshot, n - 1);
    if k == n - 1 {
        let w = watched_files(files, ids[k]->Str_0, files.len() as int);
        assert(all == before + w);
        let j = choose|j: int| 0 <= j < w.len() && w[j] == e;
        assert(all[before.len() + j] == e);
    } else {
        law_watched_items(ids, snapshot, n - 1, k, files, e);
        let j = choose|j: int| 0 <= j < before.len() && before[j] == e;
        assert(all[j] == before[j]);
    }
}

/// The check for files in use ends with how many files it has looked at and how many of them
/// are in use; what it cannot read it refuses.
pub proof fn law_locked_outcome(input: Seq<char>, w: World)
    ensures
        trimmed(input).len() == 0 ==> locked_outcome(input, w) is Err,
        crate::json::json_text(input) is Err ==> locked_outcome(input, w) is Err,
        crate::json::json_text(input) matches Ok(v) ==> (array_member(v, "files"@) is None
            ==> locked_outcome(input, w) is Err),
        trimmed(input).len() > 0 ==> (crate::json::json_text(input) matches Ok(v) ==> (array_member(
            v,
            "files"@,
        ) matches Some(files) ==> {
            let r = locked_lines(files, files.len() as int, w);
            &&& locked_outcome(input, w) matches Ok(l) && l.drop_last() == r.0 && l.last()
                == locked_end(r.1, r.0.len())
        })),
{
    match locked_outcome(input, w) {
        Ok(l) => {
            let v = crate::json::json_text(input)->Ok_0;
            let files = array_member(v, "files"@)->0;
            let r = locked_lines(files, files.len() as int, w);
            assert(l.drop_last() =~= r.0);
        },
        Err(_) => {},
    }
}

/// The check of a plan tells how many of its files were looked at, at most twenty thousand,
/// and that it was cut off exactly where there were more; only programs that it has told of
/// may be ended by what follows.
pub proof fn law_check(list: Seq<JsonV>, own: int, world: World)
    ensures
        list.len() == 0 ==> {
            let r = check_outcome(list, own, world);
            &&& bool_member(r.0, "success"@) == Some(true)
            &&& array_member(r.0, "locked"@) == Some(Seq::<JsonV>::empty())
            &&& member(r.0, "scanned"@) == Some(JsonV::Num(dec(0)))
            &&& bool_member(r.0, "truncated"@) == Some(false)
            &&& r.1.len() == 0
        },
        list.len() > 0 ==> (locked_outcome(question_text(looked_at(list)), world) matches Ok(l) ==> {
            let r = check_outcome(list, own, world);
            let text = lines_in(lines_text(l, l.len() as int));
            let u = in_use(text, own, text.len() as int);
            &&& bool_member(r.0, "success"@) == Some(true)
            &&& array_member(r.0, "locked"@) == Some(u.locked)
            &&& array_member(r.0, "procs"@) == Some(u.procs)
            &&& member(r.0, "scanned"@) == Some(
                JsonV::Num(
                    dec(
                        if list.len() <= 20_000 {
                            list.len()
                        } else {
                            20_000
                        },
                    ),
                ),
            )
            &&& bool_member(r.0, "truncated"@) == Some(list.len() > 20_000)
            &&& r.1 == may_end(u.procs, u.procs.len() as int)
        }),
        list.len() > 0 && locked_outcome(question_text(looked_at(list)), world) is Err ==> bool_member(
            check_outcome(list, own, world).0,
            "success"@,
        ) == Some(false) && check_outcome(list, own, world).1.len() == 0,
{
    law_looked_at(list);
    if list.len() == 0 {
        law_locks_are_told(in_use(Seq::empty(), own, 0), 0, false);
    } else {
        match locked_outcome(question_text(looked_at(list)), world) {
            Ok(l) => {
                let text = lines_in(lines_text(l, l.len() as int));
                let u = in_use(text, own, text.len() as int);
                law_locks_are_told(u, looked_at(list).len(), list.len() > 20_000);
                assert(crate::commands::cleanup_locks::PLAN_LOCK_CAP == 20_000);
            },
            Err(m) => {
                law_replies(
                    crate::commands::reply::complaint(
                        crate::cleanup_scan::fatal_text(m),
                        "占用检测退出码 2"@,
                    ),
                    JsonV::Null,
                );
            },
        }
    }
}

// ----------------------------------------------------------------------------- details

/// A script is run for the details of an item only where its id has one to 160 characters,
/// and not where the files of the last scan and the rules suffice.
pub proof fn law_details(
    id: Option<Seq<char>>,
    path: Option<Seq<char>>,
    snapshot: Seq<JsonV>,
    rules: JsonV,
    template: Seq<char>,
    out: Detail,
)
    requires
        detail_outcome(id, path, snapshot, rules, template, out),
    ensures
        out is Script ==> (id matches Some(i) && 1 <= i.len() <= 160 && (known_files(
            snapshot,
            i,
        ) is None || !names_files(rules, i))),
        (id is None || id->0.len() == 0 || id->0.len() > 160) ==> (out matches Detail::Reply(r)
            && bool_member(r.view(), "success"@) == Some(false)),
        safe_path(None).len() == 0,
        path matches Some(p) ==> safe_path(path) == (if p.len() <= 600 {
            p
        } else {
            Seq::empty()
        }),
{
    law_replies("参数无效"@, JsonV::Null);
}

/// Details that a script listed are told with the number it names, else with how many files
/// there are, and as cut off only where it says so.
pub proof fn law_listing(l: Listing)
    ensures
        ({
            let d = member(listing_reply(l), "data"@)->0;
            &&& bool_member(listing_reply(l), "success"@) == Some(true)
            &&& array_member(d, "files"@) == Some(l.files)
            &&& l.meta is None ==> member(d, "total"@) == Some(JsonV::Num(dec(l.files.len())))
            &&& l.meta is None ==> bool_member(d, "truncated"@) == Some(false) && text_member(
                d,
                "kind"@,
            ) == Some("files"@)
            &&& l.meta matches Some(m) ==> bool_member(d, "truncated"@) == Some(
                bool_member(m, "truncated"@) == Some(true),
            )
            &&& l.meta matches Some(m) ==> (text_member(m, "kind"@) matches Some(k) ==> text_member(
                d,
                "kind"@,
            ) == Some(k))
            &&& l.meta matches Some(m) ==> (member(m, "total"@) matches Some(v) ==> (v !is Null
                ==> member(d, "total"@) == Some(v)))
        }),
{
    let kind = match l.meta {
        Some(m) => match text_member(m, "kind"@) {
            Some(k) => k,
            None => "files"@,
        },
        None => "files"@,
    };
    let total = match l.meta {
        Some(m) => match member(m, "total"@) {
            Some(v) => if v is Null {
                JsonV::Num(dec(l.files.len()))
            } else {
                v
            },
            None => JsonV::Num(dec(l.files.len())),
        },
        None => JsonV::Num(dec(l.files.len())),
    };
    let truncated = match l.meta {
        Some(m) => bool_member(m, "truncated"@) == Some(true),
        None => false,
    };
    law_listed(kind, total, truncated, l.files, 0);
}

// -------------------------------------------------------------------------------- menus

/// Items keep their place when they are named, each by itself.
pub proof fn law_named_in_place(items: Seq<JsonV>, i: int)
    requires
        0 <= i < items.len(),
    ensures
        named_items(items).len() == items.len(),
        named_items(items)[i] == named_item(items[i], i as nat),
        text_member(items[i], "id"@) is Some ==> named_items(items)[i] == items[i],
{
}

/// A list that was put down is told with when, as one that was.
pub proof fn law_cached(items: Seq<JsonV>, at: int)
    ensures
        bool_member(cached_reply(items, at), "success"@) == Some(true),
        bool_member(cached_reply(items, at), "cached"@) == Some(true),
        array_member(cached_reply(items, at), "data"@) == Some(items),
        member(cached_reply(items, at), "cachedAt"@) == Some(JsonV::Num(signed_dec(at))),
        array_member(cache_value(at, items), "data"@) == Some(items),
        member(cache_value(at, items), "timestamp"@) == Some(JsonV::Num(signed_dec(at))),
{
    lemma_keys();
    let m = cached_reply(items, at)->Obj_0;
    lemma_member_at(m, 0);
    lemma_member_at(m, 1);
    lemma_member_at(m, 2);
    lemma_member_at(m, 3);
    let c = cache_value(at, items)->Obj_0;
    lemma_member_at(c, 0);
    lemma_member_at(c, 1);
}

/// Nothing is backed up without a scan before, nor an item of which it is not known where it
/// stands.
pub proof fn law_backup(items: Seq<JsonV>, snap: Option<JsonV>, i: int)
    ensures
        snap is None ==> backup_items(items, snap) is Err,
        backup_items(items, snap) matches Ok(v) ==> (0 <= i < v.len() ==> text_member(
            v[i],
            "regPath"@,
        ) is Some),
        backup_items(items, snap) matches Err(r) ==> bool_member(r, "success"@) == Some(false),
{
    law_replies("备份项不是最近一次扫描结果，已拒绝执行"@, JsonV::Null);
    law_replies("备份项缺少注册表/文件路径，已停止"@, JsonV::Null);
}

/// Where no results are told nothing is noted as changed.
pub proof fn law_untold_changes_nothing(snap: JsonV, told: JsonV, items: Seq<JsonV>)
    requires
        array_member(told, "results"@) is None,
    ensures
        snapshot_after(snap, told, items) == (snap, false),
{
}

/// An icon is asked for of exactly the items that have a class which the last scan knows.
pub proof fn law_icons(items: Seq<JsonV>, snap: JsonV, n: int, i: int)
    requires
        0 <= n <= items.len(),
    ensures
        0 <= i < n && icon_class(items[i], snap) is Some ==> icon_items(items, snap, n).contains(
            JsonV::Obj(seq![("clsid"@, JsonV::Str(icon_class(items[i], snap)->0))]),
        ),
        icon_items(items, snap, n).len() == crate::laws::count::count(n, with_icon(items, snap)),
    decreases n,
{
    if n > 0 {
        law_icons(items, snap, n - 1, i);
        let before = icon_items(items, snap, n - 1);
        let all = icon_items(items, snap, n);
        if 0 <= i < n && icon_class(items[i], snap) is Some {
            let e = JsonV::Obj(seq![("clsid"@, JsonV::Str(icon_class(items[i], snap)->0))]);
            if i == n - 1 {
                assert(all.last() == e);
            } else {
                let j = choose|j: int| 0 <= j < before.len() && before[j] == e;
                assert(all[j] == e);
            }
        }
    }
}

/// Whether an item has a class that the last scan knows.
pub open spec fn with_icon(items: Seq<JsonV>, snap: JsonV) -> spec_fn(int) -> bool {
    |i: int| icon_class(items[i], snap) is Some
}

/// Icons are always told as a success, with none where the script did not run or failed.
pub proof fn law_icons_are_told(o: PsOutput)
    ensures
        bool_member(icons_reply(None), "success"@) == Some(true),
        bool_member(icons_reply(Some(o)), "success"@) == Some(true),
        member(icons_reply(None), "data"@) == Some(JsonV::Obj(Seq::empty())),
        o.code != 0 ==> member(icons_reply(Some(o)), "data"@) == Some(JsonV::Obj(Seq::empty())),
        o.code == 0 ==> (crate::commands::contextmenu::last_json(o.stdout@) matches Some(d) ==> (
        d is Obj ==> member(icons_reply(Some(o)), "data"@) == Some(d))),
{
    law_replies(Seq::empty(), JsonV::Obj(Seq::empty()));
    match crate::commands::contextmenu::last_json(o.stdout@) {
        Some(d) => {
            law_replies(Seq::empty(), d);
        },
        None => {},
    }
}

/// The editor is told as opened exactly where its script ended well and said so.
pub proof fn law_editor(code: i32, stdout: Seq<char>)
    ensures
        bool_member(editor_reply(code, stdout), "success"@) == Some(
            code == 0 && occurs(trimmed(stdout), "OK"@),
        ),
        code == 0 && occurs(trimmed(stdout), "OK"@) ==> bool_member(
            editor_reply(code, stdout),
            "elevated"@,
        ) == Some(occurs(trimmed(stdout), "ELEVATED"@)),
{
    lemma_keys();
    law_replies("打开注册表编辑器失败"@, JsonV::Null);
    if code == 0 && occurs(trimmed(stdout), "OK"@) {
        lemma_member_at(editor_reply(code, stdout)->Obj_0, 0);
        lemma_member_at(editor_reply(code, stdout)->Obj_0, 1);
    }
}

/// The list of what is blocked is empty where its script failed or told nothing.
pub proof fn law_blocked_list(code: i32, stdout: Seq<char>)
    ensures
        bool_member(blocked_reply(code, stdout), "success"@) == Some(true),
        member(blocked_reply(code, stdout), "data"@) is Some,
        code != 0 ==> array_member(member(blocked_reply(code, stdout), "data"@)->0, "entries"@)
            == Some(Seq::<JsonV>::empty()),
{
    lemma_keys();
    let data = blocked_reply(code, stdout)->Obj_0[1].1;
    law_replies(Seq::empty(), data);
    lemma_member_at(data->Obj_0, 0);
}

// -------------------------------------------------------------------------------- files

/// The replies of a search for files say what they are about.
pub proof fn law_file_replies(
    message: Seq<char>,
    ty: Seq<char>,
    n: nat,
    mime: Seq<char>,
    text: Seq<char>,
    batch: Seq<char>,
)
    ensures
        bool_member(refused_scan(message), "success"@) == Some(false),
        text_member(refused_scan(message), "message"@) == Some(message),
        array_member(refused_scan(message), "data"@) == Some(Seq::<JsonV>::empty()),
        text_member(scan_progress(ty, n), "scanType"@) == Some(ty),
        member(scan_progress(ty, n), "done"@) == Some(JsonV::Num(dec(n))),
        member(scan_progress(ty, n), "total"@) == Some(JsonV::Num(dec(n))),
        bool_member(image_data(mime, text, n), "success"@) == Some(true),
        text_member(image_data(mime, text, n), "data"@) == Some(
            "data:"@ + mime + ";base64,"@ + text,
        ),
        member(image_data(mime, text, n), "size"@) == Some(JsonV::Num(dec(n))),
        bool_member(deleted_reply(batch), "success"@) == Some(true),
        bool_member(deleted_reply(batch), "recycled"@) == Some(true),
        text_member(deleted_reply(batch), "manifestPath"@) == Some(
            "deleted-"@ + batch + ".json"@,
        ),
{
    lemma_keys();
    let a = refused_scan(message)->Obj_0;
    lemma_member_at(a, 0);
    lemma_member_at(a, 1);
    lemma_member_at(a, 2);
    let b = scan_progress(ty, n)->Obj_0;
    lemma_member_at(b, 0);
    lemma_member_at(b, 1);
    lemma_member_at(b, 2);
    let c = image_data(mime, text, n)->Obj_0;
    lemma_member_at(c, 0);
    lemma_member_at(c, 1);
    lemma_member_at(c, 2);
    let d = deleted_reply(batch)->Obj_0;
    lemma_member_at(d, 0);
    lemma_member_at(d, 1);
    lemma_member_at(d, 2);
}

/// A line of a search is an item exactly where it has the mark and a value behind it.
pub proof fn law_line_item(line: Seq<char>)
    ensures
        line_item(line) is Some <==> (behind(line, "@@ITEM@@"@) is Some && json_in(
            trimmed(behind(line, "@@ITEM@@"@)->0),
        ) is Some),
        line_item(line) is Some ==> line_item(line) == json_in(
            trimmed(behind(line, "@@ITEM@@"@)->0),
        ),
{
}

/// Where nothing is left to delete, nothing is told as deleted or freed, and all as passed
/// over.
pub proof fn law_nothing_left(total: nat)
    ensures
        bool_member(nothing_left(total), "success"@) == Some(true),
        ({
            let d = member(nothing_left(total), "data"@)->0;
            &&& member(d, "totalFreed"@) == Some(JsonV::Num(dec(0)))
            &&& member(d, "failed"@) == Some(JsonV::Num(dec(0)))
            &&& member(d, "recycled"@) == Some(JsonV::Num(dec(0)))
            &&& member(d, "skipped"@) == Some(JsonV::Num(dec(total)))
            &&& array_member(d, "details"@) == Some(Seq::<JsonV>::empty())
        }),
{
    lemma_more_keys();
    let d = nothing_left(total)->Obj_0[1].1;
    law_replies(Seq::empty(), d);
    lemma_member_at(d->Obj_0, 0);
    lemma_member_at(d->Obj_0, 2);
    lemma_member_at(d->Obj_0, 3);
    lemma_member_at(d->Obj_0, 4);
    lemma_member_at(d->Obj_0, 5);
}

// -------------------------------------------------------------------------- looks, fonts

/// The images are told in order, each with its own path and name.
pub proof fn law_images(list: Seq<(Seq<char>, Seq<char>)>, i: int)
    requires
        0 <= i < list.len(),
    ensures
        bool_member(images_reply(list), "success"@) == Some(true),
        member(images_reply(list), "data"@) is Some,
        member(images_reply(list), "data"@)->0 matches JsonV::Arr(a) && a.len() == list.len()
            && text_member(a[i], "path"@) == Some(list[i].0) && text_member(a[i], "name"@) == Some(
            list[i].1,
        ),
{
    lemma_more_keys();
    let a = Seq::new(list.len(), |k: int| image_entry(list[k].0, list[k].1));
    law_replies(Seq::empty(), JsonV::Arr(a));
    assert(images_reply(list) == crate::commands::reply::granted(JsonV::Arr(a)));
    lemma_member_at(a[i]->Obj_0, 0);
    lemma_member_at(a[i]->Obj_0, 1);
}

/// The name of a font is that of its file without the ending of a font, whatever its case.
pub proof fn law_font_ending(stem: Seq<char>, ending: Seq<char>)
    requires
        ascii_lowercase(ending) == ".ttf"@ || ascii_lowercase(ending) == ".otf"@ || ascii_lowercase(
            ending,
        ) == ".woff2"@ || ascii_lowercase(ending) == ".woff"@,
    ensures
        without_font_ext(stem + ending) == stem,
{
    reveal_strlit(".ttf");
    reveal_strlit(".otf");
    reveal_strlit(".woff2");
    reveal_strlit(".woff");
    let name = stem + ending;
    let l = ascii_lowercase(name);
    let low = ascii_lowercase(ending);
    assert(low.len() == ending.len());
    assert(l.len() == name.len());
    assert forall|k: int| 0 <= k < low.len() implies l[stem.len() + k] == low[k] by {
        assert(name[stem.len() + k] == ending[k]);
    }
    assert(l.subrange(l.len() - low.len(), l.len() as int) =~= low);
    assert(low.is_suffix_of(l));
    assert(name.take(name.len() - ending.len()) =~= stem);
    if low == ".woff2"@ {
        assert(l[stem.len() as int + 5] == low[5]);
        assert(l[l.len() - 1] == '2');
        assert(".ttf"@[3] == 'f' && ".otf"@[3] == 'f');
        assert(!".ttf"@.is_suffix_of(l)) by {
            if ".ttf"@.is_suffix_of(l) {
                assert(l.subrange(l.len() - 4, l.len() as int)[3] == l[l.len() - 1]);
            }
        }
        assert(!".otf"@.is_suffix_of(l)) by {
            if ".otf"@.is_suffix_of(l) {
                assert(l.subrange(l.len() - 4, l.len() as int)[3] == l[l.len() - 1]);
            }
        }
    }
    if low == ".woff"@ {
        assert(l[stem.len() as int + 4] == low[4]);
        assert(l[stem.len() as int + 3] == low[3]);
        assert(l[l.len() - 1] == 'f');
        assert(l[l.len() - 2] == 'f');
        assert(".ttf"@[2] == 't' && ".otf"@[2] == 't' && ".woff2"@[5] == '2');
        assert(!".ttf"@.is_suffix_of(l)) by {
            if ".ttf"@.is_suffix_of(l) {
                assert(l.subrange(l.len() - 4, l.len() as int)[2] == l[l.len() - 2]);
            }
        }
        assert(!".otf"@.is_suffix_of(l)) by {
            if ".otf"@.is_suffix_of(l) {
                assert(l.subrange(l.len() - 4, l.len() as int)[2] == l[l.len() - 2]);
            }
        }
        assert(!".woff2"@.is_suffix_of(l)) by {
            if ".woff2"@.is_suffix_of(l) {
                assert(l.subrange(l.len() - 6, l.len() as int)[5] == l[l.len() - 1]);
            }
        }
    }
}

/// A font that was brought never goes without a name, and the one it has carries no white
/// space around it.
pub proof fn law_font_family(path: Seq<char>)
    ensures
        family_in(path).len() > 0,
        family_in(path) == "导入字体"@ || !crate::text::white(family_in(path)[0]),
{
    reveal_strlit("导入字体");
    assert("导入字体"@.len() == 4);
    let base = match crate::paths::file_name_of(path) {
        Some(n) => n,
        None => Seq::empty(),
    };
    let p = crate::commands::fonts::plain_family(without_font_ext(base));
    crate::laws::basis::law_trimmed(p);
}

/// The fonts that every system has are told first, and behind them the one that was brought,
/// where one was; that one is told by itself too.
pub proof fn law_fonts(s: JsonV, a: SystemFonts, there: bool)
    ensures
        bool_member(fonts_reply(s, a, there), "success"@) == Some(true),
        ({
            let d = member(fonts_reply(s, a, there), "data"@)->0;
            let l = array_member(d, "list"@)->0;
            &&& array_member(d, "list"@) is Some
            &&& forall|i: int| 0 <= i < plain_list(a).len() ==> l[i] == #[trigger] plain_list(a)[i]
            &&& l.len() == plain_list(a).len() + (if brought_font(s) is Some {
                1int
            } else {
                0
            })
            &&& brought_font(s) is None ==> member(d, "imported"@) == Some(JsonV::Null)
            &&& brought_font(s) matches Some(r) ==> member(d, "imported"@) == Some(
                brought_summary(r),
            )
        }),
{
    lemma_more_keys();
    let d = fonts_reply(s, a, there)->Obj_0[1].1;
    law_replies(Seq::empty(), d);
    lemma_member_at(d->Obj_0, 0);
    lemma_member_at(d->Obj_0, 1);
    lemma_member_at(d->Obj_0, 2);
}

// --------------------------------------------------------------------- models and others

/// The address that is given is used without the white space around it, and the usual one
/// where it is blank.
pub proof fn law_given_url(cfg: JsonV, base: JsonV, t: Seq<char>, usual: Seq<char>)
    requires
        t.len() > 0,
        member(cfg, "apiUrl"@) == Some(JsonV::Str(t)),
    ensures
        trimmed(t).len() > 0 ==> given_url(cfg, usual) == trimmed(t),
        trimmed(t).len() == 0 ==> given_url(cfg, usual) == usual,
        trial_url(cfg, base) == trimmed(t),
{
}

/// A model without a key is told as not tried.
pub proof fn law_keyless(saved: bool)
    ensures
        bool_member(keyless_reply(saved), "success"@) == Some(saved),
        ({
            let d = member(keyless_reply(saved), "data"@)->0;
            &&& bool_member(d, "verified"@) == Some(false)
            &&& bool_member(d, "emptyKey"@) == Some(true)
            &&& text_member(d, "reply"@) == Some(Seq::<char>::empty())
        }),
{
    lemma_more_keys();
    let m = keyless_reply(saved)->Obj_0;
    lemma_member_at(m, 0);
    lemma_member_at(m, 2);
    lemma_member_at(m[2].1->Obj_0, 0);
    lemma_member_at(m[2].1->Obj_0, 1);
    lemma_member_at(m[2].1->Obj_0, 2);
}

/// Use that was put down is kept as it is; without any, today begins with none.
pub proof fn law_usage(read: Option<JsonV>, today: Seq<char>)
    ensures
        read matches Some(v) ==> (v is Obj ==> usable_usage(read, today) == v),
        (read is None || !(read->0 is Obj)) ==> text_member(usable_usage(read, today), "date"@) == Some(
            today,
        ) && member(usable_usage(read, today), "count"@) == Some(JsonV::Num(dec(0))),
{
    lemma_more_keys();
    if read is None || !(read->0 is Obj) {
        lemma_member_at(usable_usage(read, today)->Obj_0, 0);
        lemma_member_at(usable_usage(read, today)->Obj_0, 1);
    }
}

proof fn lemma_first_success(list: Seq<Result<(), String>>, i: int)
    requires
        0 <= i <= list.len(),
    ensures
        first_success(list, i) matches Some(k) ==> i <= k < list.len() && list[k] is Ok && (forall|
            j: int,
        |
            i <= j < k ==> #[trigger] list[j] is Err),
        first_success(list, i) is None ==> forall|j: int|
            i <= j < list.len() ==> #[trigger] list[j] is Err,
    decreases list.len() - i,
{
    if i < list.len() && !(list[i] is Ok) {
        lemma_first_success(list, i + 1);
    }
}

/// Rules are taken from the first source that gives them; the other way is gone only where
/// every source failed, and nothing is had where that failed too.
pub proof fn law_fetched(list: Seq<Result<(), String>>, git: Option<Result<(), String>>, out: Fetched)
    requires
        fetch_outcome(list, git, out),
        list.len() <= usize::MAX,
    ensures
        out matches Fetched::Source(k) ==> k < list.len() && list[k as int] is Ok && (forall|j: int|
            0 <= j < k ==> #[trigger] list[j] is Err),
        !(out is Source) ==> forall|j: int| 0 <= j < list.len() ==> #[trigger] list[j] is Err,
        out is Git ==> (git matches Some(g) && g is Ok),
        out is Nothing ==> (git is None || git->0 is Err),
{
    lemma_first_success(list, 0);
}

/// A mark against older rules is never below zero, and the version itself where that is
/// above it.
pub proof fn law_mark(v: Option<JsonV>)
    ensures
        mark_of(v) == nothing() || below(nothing(), mark_of(v)),
        below(nothing(), crate::version::version_of(v)) ==> mark_of(v)
            == crate::version::version_of(v),
{
}

/// What is measured for how long goes by the number that is asked for; anything else than a
/// number stands for ten seconds.
pub proof fn law_seconds(v: JsonV)
    ensures
        seconds_for(None) == dec(10),
        !(v is Num) ==> seconds_for(Some(v)) == dec(10),
        (crate::value::number_of(Some(v)) matches Some(n) && v is Num && crate::value::counts(n)
            && !n.negative && crate::value::whole_part(n) >= 60) ==> seconds_for(Some(v)) == dec(60),
        (crate::value::number_of(Some(v)) matches Some(n) && v is Num && crate::value::counts(n)
            && n.negative) ==> seconds_for(Some(v)) == dec(1),
{
}

/// What a successor wrote is read only where it is a value with a nonce and a phase.
pub proof fn law_handshake(text: Seq<char>)
    ensures
        handshake_in(text) is Some <==> (json_in(text) matches Some(v) && text_member(
            v,
            "nonce"@,
        ) is Some && text_member(v, "phase"@) is Some),
        handshake_in(text) matches Some(h) ==> (json_in(text) matches Some(v) && text_member(
            v,
            "nonce"@,
        ) == Some(h.nonce) && text_member(v, "phase"@) == Some(h.phase) && h.pid == writer_of(v)),
{
}

proof fn lemma_low_digits(v: nat, n: nat, i: int)
    ensures
        low_digits(v, n).len() == n,
        0 <= i < n ==> ('0' <= low_digits(v, n)[i] && low_digits(v, n)[i] <= '9') || ('a'
            <= low_digits(v, n)[i] && low_digits(v, n)[i] <= 'z'),
    decreases n,
{
    if n > 0 {
        lemma_low_digits(v / 36, (n - 1) as nat, i - 1);
        let d = v % 36;
        assert(0 <= d < 36);
        assert(low_digits(v, n)[0] == digit36(d));
        if 0 < i < n {
            assert(low_digits(v, n)[i] == low_digits(v / 36, (n - 1) as nat)[i - 1]);
        }
    }
}

/// The name of a record begins with the moment it was made at, and ends with six digits or
/// small letters.
pub proof fn law_record_id(now: u64, nanos: u64, seq: u64, i: int)
    ensures
        (dec(now as nat) + "_"@).is_prefix_of(record_id(now, nanos, seq)),
        record_id(now, nanos, seq).len() == dec(now as nat).len() + 7,
        dec(now as nat).len() < i < record_id(now, nanos, seq).len() ==> ({
            let c = record_id(now, nanos, seq)[i];
            ('0' <= c && c <= '9') || ('a' <= c && c <= 'z')
        }),
{
    reveal_strlit("_");
    let head = dec(now as nat) + "_"@;
    let r = record_id(now, nanos, seq);
    let tail = low_digits(stirred(nanos, seq) as nat, 6);
    lemma_low_digits(stirred(nanos, seq) as nat, 6, i - head.len());
    assert(r == head + tail);
    assert(r.subrange(0, head.len() as int) =~= head);
    if dec(now as nat).len() < i < r.len() {
        assert(r[i] == tail[i - head.len()]);
    }
}

/// Of what was put down as history only a list is read.
pub proof fn law_records(t: Seq<char>)
    ensures
        records_in(None).len() == 0,
        json_in(t) matches Some(v) ==> (v matches JsonV::Arr(l) ==> records_in(Some(t)) == l),
        (json_in(t) is None || !(json_in(t)->0 is Arr)) ==> records_in(Some(t)).len() == 0,
{
}

} // verus!
