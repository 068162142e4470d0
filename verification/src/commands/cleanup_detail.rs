//! The files of an item, another try for what could not be moved to the recycle bin,
//! and ending the processes that keep files in use.

use crate::commands::cleanup::ID_LIMIT;
use crate::commands::cleanup_execute::{add64, find_known, known, path_or_empty};
use crate::commands::reply::{complain, complaint, grant, granted, refuse, refused};
use crate::commands::rules::{
    build_detail_script, detail_script, find_cleanup_rule_by_id, rule_with_id,
};
use crate::deletable::{long_path, to_long_path};
use crate::json::{array_member, member, text_member, values, Json, JsonV};
use crate::numbers::{clamp64, signed_dec};
use crate::protect::{
    is_protected_norm, lexically_normalize, normal_path, protected_norm, ProtectRoots, Roots,
};
use crate::text::{behind, dec, lines, lines_in, strip_front, texts};
use crate::value::{
    bool_member, copy_json, integer, integer_of, jarray, jcount, jint, json_in, jtext,
    lemma_values_push, read_json, set_member, with_member, Fields,
};
use vstd::prelude::*;

verus! {

// ------------------------------------------------------------------- files of an item

/// How many files are listed.
pub const DETAIL_CAP: usize = 600;

/// How long the path of an item may be.
pub const DETAIL_PATH_LIMIT: usize = 600;

/// What becomes of the question for the files of an item: a reply, or a script that
/// has to be run.
#[derive(Debug)]
pub enum Detail {
    Reply(Json),
    Script(String),
}

/// A file as it is listed.
pub open spec fn listed_file(f: JsonV) -> JsonV {
    JsonV::Obj(
        seq![
            (
                "path"@,
                match member(f, "path"@) {
                    Some(v) => v,
                    None => JsonV::Null,
                },
            ),
            (
                "size"@,
                match member(f, "size"@) {
                    Some(v) => v,
                    None => JsonV::Num(dec(0)),
                },
            ),
        ],
    )
}

/// How many of a number of files are listed.
pub open spec fn shown_count(n: nat) -> nat {
    if n > DETAIL_CAP {
        DETAIL_CAP as nat
    } else {
        n
    }
}

/// The reply that lists files.
pub open spec fn list_reply(kind: Seq<char>, total: JsonV, truncated: bool, files: Seq<JsonV>) -> JsonV {
    granted(
        JsonV::Obj(
            seq![
                ("kind"@, JsonV::Str(kind)),
                ("total"@, total),
                ("truncated"@, JsonV::Bool(truncated)),
                ("files"@, JsonV::Arr(files)),
            ],
        ),
    )
}

fn reply_list(kind: &str, total: Json, truncated: bool, files: Vec<Json>) -> (out: Json)
    ensures
        out.view() == list_reply(kind@, total.view(), truncated, values(files@)),
{
    let f: Fields = Fields::new().with("kind", jtext(kind)).with("total", total).with(
        "truncated",
        Json::Bool(truncated),
    ).with("files", jarray(files));
    assert(f.view() =~= seq![
        ("kind"@, JsonV::Str(kind@)),
        ("total"@, total.view()),
        ("truncated"@, JsonV::Bool(truncated)),
        ("files"@, JsonV::Arr(values(files@))),
    ]);
    grant(f.object())
}

/// Whether a rule names files of its own.
pub open spec fn names_files(rules: JsonV, id: Seq<char>) -> bool {
    match rule_with_id(rules, id) {
        Some(r) => match array_member(r, "fileKeys"@) {
            Some(a) => a.len() > 0,
            None => false,
        },
        None => false,
    }
}

/// The files that the last scan has found for an item.
pub open spec fn known_files(snapshot: Seq<JsonV>, id: Seq<char>) -> Option<Seq<JsonV>> {
    match known(snapshot, id) {
        Some(it) => array_member(it, "files"@),
        None => None,
    }
}

/// A path that is handed to the script; empty where it is too long.
pub open spec fn safe_path(path: Option<Seq<char>>) -> Seq<char> {
    match path {
        Some(p) => if p.len() <= DETAIL_PATH_LIMIT {
            p
        } else {
            Seq::empty()
        },
        None => Seq::empty(),
    }
}

/// What becomes of the question for the files of an item: what the last scan has found
/// is listed, so that what is listed is what would be deleted; only where a rule names
/// no files a script has to look.
pub open spec fn detail_outcome(
    id: Option<Seq<char>>,
    path: Option<Seq<char>>,
    snapshot: Seq<JsonV>,
    rules: JsonV,
    template: Seq<char>,
    out: Detail,
) -> bool {
    match id {
        Some(i) => if i.len() == 0 || i.len() > ID_LIMIT {
            out matches Detail::Reply(r) && r.view() == refused("参数无效"@)
        } else {
            match known_files(snapshot, i) {
                Some(list) => if names_files(rules, i) {
                    out matches Detail::Reply(r) && r.view() == list_reply(
                        "files"@,
                        JsonV::Num(dec(list.len())),
                        list.len() > DETAIL_CAP,
                        Seq::new(shown_count(list.len()), |k: int| listed_file(list[k])),
                    )
                } else {
                    out matches Detail::Script(s) && s@ == detail_script(
                        template,
                        i,
                        safe_path(path),
                        rules,
                    )
                },
                None => out matches Detail::Script(s) && s@ == detail_script(
                    template,
                    i,
                    safe_path(path),
                    rules,
                ),
            }
        },
        None => out matches Detail::Reply(r) && r.view() == refused("参数无效"@),
    }
}

fn list_file(f: &Json) -> (out: Json)
    ensures
        out.view() == listed_file(f.view()),
{
    let path: Json = match f.get("path") {
        Some(v) => copy_json(v),
        None => Json::Null,
    };
    let size: Json = match f.get("size") {
        Some(v) => copy_json(v),
        None => jcount(0),
    };
    let o: Fields = Fields::new().with("path", path).with("size", size);
    assert(o.view() =~= listed_file(f.view())->Obj_0);
    o.object()
}

fn list_files(list: &Vec<Json>) -> (out: Json)
    ensures
        ({
            let lv = values(list@);
            out.view() == list_reply(
                "files"@,
                JsonV::Num(dec(lv.len())),
                lv.len() > DETAIL_CAP,
                Seq::new(shown_count(lv.len()), |k: int| listed_file(lv[k])),
            )
        }),
{
    let ghost lv = values(list@);
    let n: usize = if list.len() > DETAIL_CAP {
        DETAIL_CAP
    } else {
        list.len()
    };
    let mut files: Vec<Json> = Vec::new();
    let mut i: usize = 0;
    while i < n
        invariant
            i <= n <= list@.len(),
            lv == values(list@),
            files@.len() == i,
            forall|k: int| 0 <= k < i ==> (#[trigger] files@[k]).view() == listed_file(lv[k]),
        decreases n - i,
    {
        assert(lv[i as int] == list@[i as int].view());
        files.push(list_file(&list[i]));
        i += 1;
    }
    assert(values(files@) =~= Seq::new(shown_count(lv.len()), |k: int| listed_file(lv[k])));
    reply_list("files", jcount(list.len() as u64), list.len() > DETAIL_CAP, files)
}

/// What becomes of the question for the files of an item.
pub fn item_detail(
    id: Option<&str>,
    path: Option<&str>,
    snapshot: &Vec<Json>,
    rules: &Json,
    template: &str,
) -> (out: Detail)
    ensures
        detail_outcome(
            match id {
                Some(i) => Some(i@),
                None => None,
            },
            match path {
                Some(p) => Some(p@),
                None => None,
            },
            values(snapshot@),
            rules.view(),
            template@,
            out,
        ),
{
    let id: &str = match id {
        Some(i) => i,
        None => {
            return Detail::Reply(refuse("参数无效"));
        },
    };
    if id.unicode_len() == 0 || id.unicode_len() > ID_LIMIT {
        return Detail::Reply(refuse("参数无效"));
    }
    let keyed: bool = match find_cleanup_rule_by_id(rules, id) {
        Some(r) => match r.array("fileKeys") {
            Some(a) => {
                assert(values(a@).len() == a@.len());
                a.len() > 0
            },
            None => false,
        },
        None => false,
    };
    if keyed {
        if let Some(it) = find_known(snapshot, id) {
            if let Some(list) = it.array("files") {
                assert(values(list@).len() == list@.len());
                return Detail::Reply(list_files(list));
            }
        }
    }
    let none: String = String::new();
    assert(none@ =~= Seq::empty());
    let place: &str = match path {
        Some(p) => if p.unicode_len() <= DETAIL_PATH_LIMIT {
            p
        } else {
            none.as_str()
        },
        None => none.as_str(),
    };
    Detail::Script(build_detail_script(template, id, place, rules))
}

/// What a script has listed: the files, and what it says about them.
pub ghost struct Listing {
    pub files: Seq<JsonV>,
    pub meta: Option<JsonV>,
}

/// What the first `n` lines list.
pub open spec fn listing(list: Seq<Seq<char>>, n: int) -> Listing
    decreases n,
{
    if n <= 0 {
        Listing { files: Seq::empty(), meta: None }
    } else {
        let before = listing(list, n - 1);
        match behind(list[n - 1], "@@ITEMFILE@@"@) {
            Some(rest) => match json_in(rest) {
                Some(f) => if text_member(f, "path"@) is Some {
                    Listing { files: before.files.push(f), ..before }
                } else {
                    before
                },
                None => before,
            },
            None => match behind(list[n - 1], "@@DETAIL@@"@) {
                Some(rest) => match json_in(rest) {
                    Some(m) => Listing { meta: Some(m), ..before },
                    None => before,
                },
                None => before,
            },
        }
    }
}

/// The reply to what a script has listed.
pub open spec fn listing_reply(l: Listing) -> JsonV {
    let kind = match l.meta {
        Some(m) => match text_member(m, "kind"@) {
            Some(k) => k,
            None => "files"@,
        },
        None => "files"@,
    };
    let total = match l.meta {
        Some(m) => match member(m, "total"@) {
            Some(v) => if v is Null {
                JsonV::Num(dec(l.files.len()))
            } else {
                v
            },
            None => JsonV::Num(dec(l.files.len())),
        },
        None => JsonV::Num(dec(l.files.len())),
    };
    let truncated = match l.meta {
        Some(m) => bool_member(m, "truncated"@) == Some(true),
        None => false,
    };
    list_reply(kind, total, truncated, l.files)
}

/// The reply to what a script has listed.
pub fn finish_detail(code: i32, stdout: &str, stderr: &str) -> (out: Json)
    ensures
        out.view() == (if code != 0 {
            refused(complaint(stderr@, "明细枚举失败"@))
        } else {
            listing_reply(listing(lines_in(stdout@), lines_in(stdout@).len() as int))
        }),
{
    if code != 0 {
        return refuse(complain(stderr, "明细枚举失败").as_str());
    }
    let list: Vec<String> = lines(stdout);
    let ghost lv = lines_in(stdout@);
    assert(lv.len() == list@.len());
    let mut files: Vec<Json> = Vec::new();
    let mut meta: Option<Json> = None;
    let mut i: usize = 0;
    assert(values(files@) =~= Seq::empty());
    while i < list.len()
        invariant
            i <= list@.len(),
            lv == texts(list@),
            values(files@) == listing(lv, i as int).files,
            match meta {
                Some(m) => listing(lv, i as int).meta == Some(m.view()),
                None => listing(lv, i as int).meta is None,
            },
        decreases list@.len() - i,
    {
        assert(lv[i as int] == list@[i as int]@);
        match strip_front(list[i].as_str(), "@@ITEMFILE@@") {
            Some(rest) => {
                if let Some(f) = read_json(rest.as_str()) {
                    if f.text("path").is_some() {
                        proof {
                            lemma_values_push(files@, f);
                        }
                        files.push(f);
                    }
                }
            },
            None => {
                if let Some(rest) = strip_front(list[i].as_str(), "@@DETAIL@@") {
                    if let Some(m) = read_json(rest.as_str()) {
                        meta = Some(m);
                    }
                }
            },
        }
        i += 1;
    }
    assert(values(files@).len() == files@.len());
    let count: Json = jcount(files.len() as u64);
    match meta {
        Some(m) => {
            let kind: &str = match m.text("kind") {
                Some(k) => k,
                None => "files",
            };
            let total: Json = match m.get("total") {
                Some(Json::Null) => count,
                Some(v) => copy_json(v),
                None => count,
            };
            let truncated: bool = match m.flag("truncated") {
                Some(b) => b,
                None => false,
            };
            reply_list(kind, total, truncated, files)
        },
        None => reply_list("files", count, false, files),
    }
}

// ------------------------------------------------------------------------ another try

/// What became of deleting something for good.
#[derive(Debug)]
pub enum Removal {
    Done,
    Missing,
    Failed(String),
}

/// What is known of something that could not be moved to the recycle bin: whether it
/// is still there, the long form of its path where there is one, its size, and what
/// became of deleting it.
#[derive(Debug)]
pub struct Retry {
    pub exists: bool,
    pub long: Option<String>,
    pub size: i64,
    pub removal: Removal,
}

/// What became of another try.
pub ghost struct Tried {
    pub freed: int,
    pub ok: nat,
    pub failed: nat,
    pub details: Seq<JsonV>,
}

pub open spec fn tried_detail(
    path: Seq<char>,
    status: Seq<char>,
    freed: int,
    message: Option<Seq<char>>,
) -> JsonV {
    let plain = seq![
        ("path"@, JsonV::Str(path)),
        ("status"@, JsonV::Str(status)),
        ("freed"@, JsonV::Num(signed_dec(freed))),
    ];
    JsonV::Obj(
        match message {
            Some(m) => plain.push(("message"@, JsonV::Str(m))),
            None => plain,
        },
    )
}

/// Whether something may be deleted for good: it is still there, and its path is not
/// protected.
pub open spec fn may_remove(t: JsonV, f: Retry, r: Roots) -> bool {
    f.exists && !protected_norm(normal_path(long_path(path_or_empty(t), f.long)), r)
}

/// What became of the first `n` tries.
pub open spec fn tried(targets: Seq<JsonV>, facts: Seq<Retry>, r: Roots, n: int) -> Tried
    decreases n,
{
    if n <= 0 {
        Tried { freed: 0, ok: 0, failed: 0, details: Seq::empty() }
    } else {
        let before = tried(targets, facts, r, n - 1);
        let path = path_or_empty(targets[n - 1]);
        let f = facts[n - 1];
        if !f.exists {
            Tried {
                details: before.details.push(tried_detail(path, "skip"@, 0, Some("文件不存在"@))),
                ..before
            }
        } else if !may_remove(targets[n - 1], f, r) {
            Tried {
                failed: before.failed + 1,
                details: before.details.push(
                    tried_detail(path, "error"@, 0, Some("受保护路径，已拒绝"@)),
                ),
                ..before
            }
        } else {
            match f.removal {
                Removal::Done => Tried {
                    freed: clamp64(before.freed + f.size),
                    ok: before.ok + 1,
                    details: before.details.push(
                        tried_detail(path, "ok"@, f.size as int, None),
                    ),
                    ..before
                },
                Removal::Missing => Tried {
                    ok: before.ok + 1,
                    details: before.details.push(tried_detail(path, "ok"@, 0, None)),
                    ..before
                },
                Removal::Failed(e) => Tried {
                    failed: before.failed + 1,
                    details: before.details.push(tried_detail(path, "error"@, 0, Some(e@))),
                    ..before
                },
            }
        }
    }
}

/// The reply to another try.
pub open spec fn tried_reply(t: Tried) -> JsonV {
    JsonV::Obj(
        seq![
            ("success"@, JsonV::Bool(t.failed == 0)),
            (
                "data"@,
                JsonV::Obj(
                    seq![
                        ("totalFreed"@, JsonV::Num(signed_dec(t.freed))),
                        ("ok"@, JsonV::Num(dec(t.ok))),
                        ("failed"@, JsonV::Num(dec(t.failed))),
                        ("details"@, JsonV::Arr(t.details)),
                    ],
                ),
            ),
        ],
    )
}

fn own_path(t: &Json) -> (out: String)
    ensures
        out@ == path_or_empty(t.view()),
{
    match t.text("path") {
        Some(p) => p.to_owned(),
        None => {
            let none: String = String::new();
            assert(none@ =~= Seq::empty());
            none
        },
    }
}

/// Whether something may be deleted for good. Nothing may be deleted before this was
/// asked.
pub fn retry_allowed(t: &Json, exists: bool, long: &Option<String>, r: &ProtectRoots) -> (out: bool)
    ensures
        out == (exists && !protected_norm(
            normal_path(long_path(path_or_empty(t.view()), *long)),
            r.view(),
        )),
{
    let path: String = own_path(t);
    exists && !is_protected_norm(
        lexically_normalize(to_long_path(path.as_str(), long).as_str()).as_str(),
        r,
    )
}

fn make_detail(path: &str, status: &str, freed: i64, message: Option<&str>) -> (out: Json)
    ensures
        out.view() == tried_detail(
            path@,
            status@,
            freed as int,
            match message {
                Some(m) => Some(m@),
                None => None,
            },
        ),
{
    let f: Fields = Fields::new().with("path", jtext(path)).with("status", jtext(status)).with(
        "freed",
        jint(freed),
    );
    assert(f.view() =~= seq![
        ("path"@, JsonV::Str(path@)),
        ("status"@, JsonV::Str(status@)),
        ("freed"@, JsonV::Num(signed_dec(freed as int))),
    ]);
    match message {
        Some(m) => f.with("message", jtext(m)).object(),
        None => f.object(),
    }
}

/// The reply to another try, given what became of each. Where there is nothing to try
/// again, that is the reply.
pub fn retry_failed_delete(targets: &Vec<Json>, facts: &Vec<Retry>, r: &ProtectRoots) -> (out: Json)
    requires
        facts@.len() == targets@.len(),
    ensures
        out.view() == (if targets@.len() == 0 {
            refused("没有待重试的失败项"@)
        } else {
            tried_reply(tried(values(targets@), facts@, r.view(), targets@.len() as int))
        }),
{
    if targets.len() == 0 {
        return refuse("没有待重试的失败项");
    }
    let ghost tv = values(targets@);
    let mut freed: i64 = 0;
    let mut ok: u64 = 0;
    let mut failed: u64 = 0;
    let mut details: Vec<Json> = Vec::new();
    let mut i: usize = 0;
    assert(values(details@) =~= Seq::empty());
    while i < targets.len()
        invariant
            i <= targets.len(),
            facts@.len() == targets@.len(),
            tv == values(targets@),
            ok <= i,
            failed <= i,
            tried(tv, facts@, r.view(), i as int) == (Tried {
                freed: freed as int,
                ok: ok as nat,
                failed: failed as nat,
                details: values(details@),
            }),
        decreases targets@.len() - i,
    {
        let t: &Json = &targets[i];
        assert(tv[i as int] == t.view());
        let path: String = own_path(t);
        let f: &Retry = &facts[i];
        let d: Json = if !f.exists {
            make_detail(path.as_str(), "skip", 0, Some("文件不存在"))
        } else if !retry_allowed(t, f.exists, &f.long, r) {
            failed += 1;
            make_detail(path.as_str(), "error", 0, Some("受保护路径，已拒绝"))
        } else {
            match &f.removal {
                Removal::Done => {
                    freed = add64(freed, f.size);
                    ok += 1;
                    make_detail(path.as_str(), "ok", f.size, None)
                },
                Removal::Missing => {
                    ok += 1;
                    make_detail(path.as_str(), "ok", 0, None)
                },
                Removal::Failed(e) => {
                    failed += 1;
                    make_detail(path.as_str(), "error", 0, Some(e.as_str()))
                },
            }
        };
        proof {
            lemma_values_push(details@, d);
        }
        details.push(d);
        i += 1;
    }
    let ghost all = tried(tv, facts@, r.view(), targets@.len() as int);
    let data: Fields = Fields::new().with("totalFreed", jint(freed)).with("ok", jcount(ok)).with(
        "failed",
        jcount(failed),
    ).with("details", jarray(details));
    assert(data.view() =~= seq![
        ("totalFreed"@, JsonV::Num(signed_dec(all.freed))),
        ("ok"@, JsonV::Num(dec(all.ok))),
        ("failed"@, JsonV::Num(dec(all.failed))),
        ("details"@, JsonV::Arr(all.details)),
    ]);
    let f: Fields = Fields::new().with("success", Json::Bool(failed == 0)).with(
        "data",
        data.object(),
    );
    assert(f.view() =~= tried_reply(all)->Obj_0);
    f.object()
}

// -------------------------------------------------------------------- ending processes

/// The number of a process that may be ended.
pub open spec fn pid_of(p: JsonV) -> int {
    match integer_of(member(p, "pid"@)) {
        Some(n) => n,
        None => -1,
    }
}

/// Whether there is any need to try to end a process: never this one itself.
pub fn end_target(p: &Json, own: i64) -> (out: Option<i64>)
    ensures
        match out {
            Some(n) => n == pid_of(p.view()) && n != own,
            None => pid_of(p.view()) == own,
        },
{
    let pid: i64 = match integer(p.get("pid")) {
        Some(n) => n,
        None => -1,
    };
    if pid == own {
        None
    } else {
        Some(pid)
    }
}

/// Whether a number can be that of a process.
pub fn pid_allowed(pid: i64) -> (out: bool)
    ensures
        out == (0 < pid <= u32::MAX),
{
    pid > 0 && pid <= u32::MAX as i64
}

/// The processes among the first `n` that were ended, and those that were not with the
/// reason.
pub open spec fn ended(
    targets: Seq<JsonV>,
    results: Seq<Result<(), String>>,
    own: int,
    n: int,
) -> (Seq<JsonV>, Seq<JsonV>)
    decreases n,
{
    if n <= 0 {
        (Seq::empty(), Seq::empty())
    } else {
        let before = ended(targets, results, own, n - 1);
        if pid_of(targets[n - 1]) == own {
            before
        } else {
            match results[n - 1] {
                Ok(_) => (before.0.push(targets[n - 1]), before.1),
                Err(e) => (
                    before.0,
                    before.1.push(with_member(targets[n - 1], "message"@, JsonV::Str(e@))),
                ),
            }
        }
    }
}

/// The reply to the request to end processes, given what became of each.
pub fn kill_reply(targets: &Vec<Json>, results: &Vec<Result<(), String>>, own: i64) -> (out: Json)
    requires
        results@.len() == targets@.len(),
    ensures
        ({
            let e = ended(values(targets@), results@, own as int, targets@.len() as int);
            out.view() == JsonV::Obj(
                seq![
                    ("success"@, JsonV::Bool(true)),
                    ("killed"@, JsonV::Arr(e.0)),
                    ("failed"@, JsonV::Arr(e.1)),
                ],
            )
        }),
{
    let ghost tv = values(targets@);
    let mut killed: Vec<Json> = Vec::new();
    let mut failed: Vec<Json> = Vec::new();
    let mut i: usize = 0;
    assert(values(killed@) =~= Seq::empty());
    assert(values(failed@) =~= Seq::empty());
    while i < targets.len()
        invariant
            i <= targets@.len(),
            results@.len() == targets@.len(),
            tv == values(targets@),
            (values(killed@), values(failed@)) == ended(tv, results@, own as int, i as int),
        decreases targets@.len() - i,
    {
        assert(tv[i as int] == targets@[i as int].view());
        if end_target(&targets[i], own).is_some() {
            let own_copy: Json = copy_json(&targets[i]);
            match &results[i] {
                Ok(_) => {
                    proof {
                        lemma_values_push(killed@, own_copy);
                    }
                    killed.push(own_copy);
                },
                Err(e) => {
                    let v: Json = set_member(own_copy, "message", jtext(e.as_str()));
                    proof {
                        lemma_values_push(failed@, v);
                    }
                    failed.push(v);
                },
            }
        }
        i += 1;
    }
    let ghost e = ended(tv, results@, own as int, targets@.len() as int);
    let f: Fields = Fields::new().with("success", Json::Bool(true)).with(
        "killed",
        jarray(killed),
    ).with("failed", jarray(failed));
    assert(f.view() =~= seq![
        ("success"@, JsonV::Bool(true)),
        ("killed"@, JsonV::Arr(e.0)),
        ("failed"@, JsonV::Arr(e.1)),
    ]);
    f.object()
}

// ------------------------------------------------------------------------------ laws

/// What is protected is never deleted for good: it counts as failed, and frees nothing.
pub proof fn law_protected_never_removed(t: JsonV, f: Retry, r: Roots)
    requires
        protected_norm(normal_path(long_path(path_or_empty(t), f.long)), r),
    ensures
        !may_remove(t, f, r),
        tried(seq![t], seq![f], r, 1).ok == 0,
        tried(seq![t], seq![f], r, 1).freed == 0,
{
    reveal_with_fuel(tried, 2);
}

} // verus!
