//! Cleaning up: what may be cleaned up, what the cleanup has reported, what was moved
//! to the recycle bin, and what is answered.

use crate::commands::cleanup::{id_or_empty, ID_LIMIT};
use crate::commands::reply::{complain, complaint, refuse, refused};
use crate::commands::rules::last_with_id;
use crate::deletable::{long_path, to_long_path};
use crate::json::{
    array_member, lemma_view_arr, member, text_member, values, Json, JsonV,
};
use crate::numbers::{clamp64, signed_dec};
use crate::paths::{absolute, is_absolute};
use crate::protect::{
    components, fold_components, is_protected_norm, lexically_normalize, normal_path,
    protected_norm, rooted, split_root, ProtectRoots,
};
use crate::text::{
    behind, cat3, dec, decimal, join, joined, lemma_texts_push, lines, lines_in, same, strip_front,
    texts, trim, trimmed,
};
use crate::value::{
    bool_member, copy_items, copy_json, jarray, jcount, jint, json_in, jtext, law_set_member,
    lemma_values_push, read_json, set_member, whole_number, whole_of, with_member, Fields,
};
use vstd::prelude::*;

verus! {

// ----------------------------------------------------------------------------- paths

/// A path without `.`, `..` and repeated separators: its drive, or its server and share,
/// with what is left of the components behind it.
pub open spec fn folded_path(s: Seq<char>) -> Seq<char> {
    let root = rooted(s).0;
    let rest = joined(components(s), "\\"@);
    if root.len() == 0 {
        rest
    } else if rest.len() == 0 {
        root
    } else {
        root + "\\"@ + rest
    }
}

/// A path made absolute, without `.` and `..`.
pub open spec fn resolved(p: Seq<char>, cwd: Option<Seq<char>>) -> Seq<char> {
    folded_path(
        if is_absolute(p) {
            p
        } else {
            match cwd {
                Some(c) => c + "\\"@ + p,
                None => p,
            }
        },
    )
}

/// A path without `.`, `..` and repeated separators.
pub fn fold_path(s: &str) -> (out: String)
    ensures
        out@ == folded_path(s@),
{
    let (root, list) = split_root(s);
    assert(texts(list@).len() == list@.len());
    let rest: String = join(&fold_components(&list), "\\");
    if root.as_str().unicode_len() == 0 {
        rest
    } else if rest.as_str().unicode_len() == 0 {
        root
    } else {
        cat3(root.as_str(), "\\", rest.as_str())
    }
}

/// A path made absolute, without `.` and `..`.
pub fn path_resolve(p: &str, cwd: Option<&str>) -> (out: String)
    ensures
        out@ == resolved(
            p@,
            match cwd {
                Some(c) => Some(c@),
                None => None,
            },
        ),
{
    let s: String = if absolute(p) {
        p.to_owned()
    } else {
        match cwd {
            Some(c) => cat3(c, "\\", p),
            None => p.to_owned(),
        }
    };
    fold_path(s.as_str())
}

// -------------------------------------------------------------------------- what is allowed

/// How many items may be cleaned up at once.
pub const ITEM_LIMIT: usize = 500;

/// What the last scan has found under an id.
pub open spec fn known(snapshot: Seq<JsonV>, id: Seq<char>) -> Option<JsonV> {
    if id.len() > ID_LIMIT {
        None
    } else {
        match last_with_id(snapshot, id, snapshot.len() as int) {
            Some(i) => Some(snapshot[i]),
            None => None,
        }
    }
}

/// Whether two values name the same path, as far as both name one.
pub open spec fn same_place(a: JsonV, b: JsonV, cwd: Option<Seq<char>>) -> bool {
    match (text_member(a, "path"@), text_member(b, "path"@)) {
        (Some(p), Some(q)) => p.len() == 0 || q.len() == 0 || resolved(p, cwd) == resolved(q, cwd),
        _ => true,
    }
}

/// What the last scan has found in place of an item that is asked for: the item must
/// be an object with the id of something that was found, at the same path.
pub open spec fn vouched(item: JsonV, snapshot: Seq<JsonV>, cwd: Option<Seq<char>>) -> Option<
    JsonV,
> {
    match text_member(item, "id"@) {
        Some(id) => match known(snapshot, id) {
            Some(k) => if same_place(item, k, cwd) {
                Some(k)
            } else {
                None
            },
            None => None,
        },
        None => None,
    }
}

/// Whether the first `n` items are all vouched for.
pub open spec fn all_vouched(
    list: Seq<JsonV>,
    snapshot: Seq<JsonV>,
    cwd: Option<Seq<char>>,
    n: int,
) -> bool
    decreases n,
{
    n <= 0 || (all_vouched(list, snapshot, cwd, n - 1) && vouched(list[n - 1], snapshot, cwd)
        is Some)
}

/// The items that may be cleaned up, as the last scan has found them; none where one of
/// them was not found by it.
pub open spec fn validated(
    items: Option<JsonV>,
    snapshot: Seq<JsonV>,
    cwd: Option<Seq<char>>,
) -> Option<Seq<JsonV>> {
    match items {
        Some(JsonV::Arr(a)) => if 1 <= a.len() <= ITEM_LIMIT && all_vouched(
            a,
            snapshot,
            cwd,
            a.len() as int,
        ) {
            Some(Seq::new(a.len(), |i: int| vouched(a[i], snapshot, cwd)->0))
        } else {
            None
        },
        _ => None,
    }
}

/// What the last scan has found under an id.
pub fn find_known<'a>(snapshot: &'a Vec<Json>, id: &str) -> (out: Option<&'a Json>)
    ensures
        match out {
            Some(k) => known(values(snapshot@), id@) == Some(k.view()),
            None => known(values(snapshot@), id@) is None,
        },
{
    if id.unicode_len() > ID_LIMIT {
        return None;
    }
    let ghost sv = values(snapshot@);
    let mut n: usize = snapshot.len();
    while n > 0
        invariant
            n <= snapshot@.len(),
            sv == values(snapshot@),
            last_with_id(sv, id@, snapshot@.len() as int) == last_with_id(sv, id@, n as int),
            id@.len() <= ID_LIMIT,
        decreases n,
    {
        assert(sv[n - 1] == snapshot@[n - 1].view());
        if let Some(t) = snapshot[n - 1].text("id") {
            if same(t, id) {
                return Some(&snapshot[n - 1]);
            }
        }
        n -= 1;
    }
    None
}

fn is_same_place(a: &Json, b: &Json, cwd: Option<&str>) -> (out: bool)
    ensures
        out == same_place(
            a.view(),
            b.view(),
            match cwd {
                Some(c) => Some(c@),
                None => None,
            },
        ),
{
    if let Some(p) = a.text("path") {
        if let Some(q) = b.text("path") {
            return p.unicode_len() == 0 || q.unicode_len() == 0 || same(
                path_resolve(p, cwd).as_str(),
                path_resolve(q, cwd).as_str(),
            );
        }
    }
    true
}

fn vouch<'a>(item: &Json, snapshot: &'a Vec<Json>, cwd: Option<&str>) -> (out: Option<&'a Json>)
    ensures
        ({
            let w = match cwd {
                Some(c) => Some(c@),
                None => None,
            };
            match out {
                Some(k) => vouched(item.view(), values(snapshot@), w) == Some(k.view()),
                None => vouched(item.view(), values(snapshot@), w) is None,
            }
        }),
{
    let id: &str = match item.text("id") {
        Some(t) => t,
        None => {
            return None;
        },
    };
    match find_known(snapshot, id) {
        Some(k) => if is_same_place(item, k, cwd) {
            Some(k)
        } else {
            None
        },
        None => None,
    }
}

/// The items that may be cleaned up, as the last scan has found them.
pub fn validate_snapshot_items(items: &Option<Json>, snapshot: &Vec<Json>, cwd: Option<&str>) -> (out:
    Option<Vec<Json>>)
    ensures
        ({
            let allowed = validated(
                match items {
                    Some(v) => Some(v.view()),
                    None => None,
                },
                values(snapshot@),
                match cwd {
                    Some(c) => Some(c@),
                    None => None,
                },
            );
            match out {
                Some(list) => allowed == Some(values(list@)),
                None => allowed is None,
            }
        }),
{
    let ghost sv = values(snapshot@);
    let ghost w = match cwd {
        Some(c) => Some(c@),
        None => None,
    };
    let a: &Vec<Json> = match items {
        Some(Json::Arr(a)) => a,
        _ => {
            return None;
        },
    };
    proof {
        lemma_view_arr(*a);
    }
    let ghost list = values(a@);
    assert(list.len() == a@.len());
    if a.len() == 0 || a.len() > ITEM_LIMIT {
        return None;
    }
    let ghost goal = Seq::new(list.len(), |i: int| vouched(list[i], sv, w)->0);
    let mut out: Vec<Json> = Vec::new();
    let mut i: usize = 0;
    assert(values(out@) =~= goal.take(0));
    while i < a.len()
        invariant
            i <= a@.len(),
            list == values(a@),
            sv == values(snapshot@),
            w == (match cwd {
                Some(c) => Some(c@),
                None => None,
            }),
            goal == Seq::new(list.len(), |i: int| vouched(list[i], sv, w)->0),
            all_vouched(list, sv, w, i as int),
            values(out@) == goal.take(i as int),
            items matches Some(v) && v.view() == JsonV::Arr(list),
            1 <= list.len() <= ITEM_LIMIT,
        decreases a@.len() - i,
    {
        assert(list[i as int] == a@[i as int].view());
        match vouch(&a[i], snapshot, cwd) {
            Some(k) => {
                let c: Json = copy_json(k);
                proof {
                    lemma_values_push(out@, c);
                }
                out.push(c);
            },
            None => {
                proof {
                    lemma_not_vouched(list, sv, w, i as int, list.len() as int);
                }
                return None;
            },
        }
        i += 1;
        assert(goal.take(i as int) =~= goal.take(i - 1).push(goal[i - 1]));
    }
    assert(goal.take(a@.len() as int) =~= goal);
    Some(out)
}

proof fn lemma_not_vouched(
    list: Seq<JsonV>,
    snapshot: Seq<JsonV>,
    cwd: Option<Seq<char>>,
    i: int,
    n: int,
)
    requires
        0 <= i < n <= list.len(),
        vouched(list[i], snapshot, cwd) is None,
    ensures
        !all_vouched(list, snapshot, cwd, n),
    decreases n,
{
    if i < n - 1 {
        lemma_not_vouched(list, snapshot, cwd, i, n - 1);
    }
}

/// The items that may be cleaned up; otherwise the reply.
pub fn execute_gate(items: &Option<Json>, snapshot: &Vec<Json>, cwd: Option<&str>) -> (out: Result<
    Vec<Json>,
    Json,
>)
    ensures
        ({
            let allowed = validated(
                match items {
                    Some(v) => Some(v.view()),
                    None => None,
                },
                values(snapshot@),
                match cwd {
                    Some(c) => Some(c@),
                    None => None,
                },
            );
            match out {
                Ok(list) => allowed == Some(values(list@)),
                Err(r) => allowed is None && r.view() == refused(
                    "清理项不是最近一次扫描结果，已拒绝执行"@,
                ),
            }
        }),
{
    match validate_snapshot_items(items, snapshot, cwd) {
        Some(list) => Ok(list),
        None => Err(refuse("清理项不是最近一次扫描结果，已拒绝执行")),
    }
}

// ------------------------------------------------------------- what a cleanup reports

/// What a cleanup has printed: what is to be moved to the recycle bin, and the other
/// lines.
pub ghost struct Printed {
    pub entries: Seq<JsonV>,
    pub clean: Seq<Seq<char>>,
}

/// What the first `n` lines hold. An entry without a path is dropped.
pub open spec fn printed(list: Seq<Seq<char>>, n: int) -> Printed
    decreases n,
{
    if n <= 0 {
        Printed { entries: Seq::empty(), clean: Seq::empty() }
    } else {
        let before = printed(list, n - 1);
        match behind(list[n - 1], "@@RECYCLE@@"@) {
            Some(rest) => match json_in(rest) {
                Some(e) => match text_member(e, "path"@) {
                    Some(p) => if p.len() > 0 {
                        Printed { entries: before.entries.push(e), ..before }
                    } else {
                        before
                    },
                    None => before,
                },
                None => before,
            },
            None => Printed { clean: before.clean.push(list[n - 1]), ..before },
        }
    }
}

/// The text of the result among what was printed.
pub open spec fn result_body(clean: Seq<Seq<char>>, stripped: Seq<char>) -> Seq<char> {
    let whole = trimmed(joined(clean, "\n"@));
    if whole.len() == 0 {
        trimmed(stripped)
    } else {
        whole
    }
}

/// What a cleanup has printed: its result, and what is to be moved to the recycle bin.
#[derive(Debug)]
pub struct Report {
    pub data: Json,
    pub entries: Vec<Json>,
}

/// The reply where what a cleanup has printed cannot be read.
pub open spec fn unreadable_reply(stripped: Seq<char>) -> JsonV {
    JsonV::Obj(
        seq![
            ("success"@, JsonV::Bool(false)),
            ("message"@, JsonV::Str("解析结果失败"@)),
            ("raw"@, JsonV::Str(stripped)),
        ],
    )
}

fn split_printed(stdout: &str) -> (out: (Vec<Json>, Vec<String>))
    ensures
        ({
            let list = lines_in(stdout@);
            let p = printed(list, list.len() as int);
            values(out.0@) == p.entries && texts(out.1@) == p.clean
        }),
{
    let list: Vec<String> = lines(stdout);
    let ghost lv = lines_in(stdout@);
    assert(lv.len() == list@.len());
    let mut entries: Vec<Json> = Vec::new();
    let mut clean: Vec<String> = Vec::new();
    let mut i: usize = 0;
    assert(values(entries@) =~= Seq::empty());
    assert(texts(clean@) =~= Seq::empty());
    while i < list.len()
        invariant
            i <= list@.len(),
            lv == texts(list@),
            values(entries@) == printed(lv, i as int).entries,
            texts(clean@) == printed(lv, i as int).clean,
        decreases list@.len() - i,
    {
        assert(lv[i as int] == list@[i as int]@);
        match strip_front(list[i].as_str(), "@@RECYCLE@@") {
            Some(rest) => {
                if let Some(e) = read_json(rest.as_str()) {
                    let fine: bool = match e.text("path") {
                        Some(p) => p.unicode_len() > 0,
                        None => false,
                    };
                    if fine {
                        proof {
                            lemma_values_push(entries@, e);
                        }
                        entries.push(e);
                    }
                }
            },
            None => {
                let t: String = list[i].clone();
                proof {
                    lemma_texts_push(clean@, t);
                }
                let ghost before = texts(clean@);
                clean.push(t);
                assert(texts(clean@) =~= before.push(t@));
            },
        }
        i += 1;
    }
    (entries, clean)
}

/// Reads what a cleanup has printed, given the same without its lines of diagnosis;
/// where there is no result, the reply.
pub fn read_report(code: i32, stdout: &str, stderr: &str, stripped: &str) -> (out: Result<
    Report,
    Json,
>)
    ensures
        ({
            let list = lines_in(stdout@);
            let p = printed(list, list.len() as int);
            if code != 0 {
                out matches Err(r) && r.view() == refused(complaint(stderr@, "清理失败"@))
            } else {
                match json_in(result_body(p.clean, stripped@)) {
                    Some(d) => out matches Ok(r) && r.data.view() == d && values(r.entries@)
                        == p.entries,
                    None => out matches Err(r) && r.view() == unreadable_reply(stripped@),
                }
            }
        }),
{
    if code != 0 {
        return Err(refuse(complain(stderr, "清理失败").as_str()));
    }
    let (entries, clean) = split_printed(stdout);
    let whole: String = trim(join(&clean, "\n").as_str());
    let body: String = if whole.as_str().unicode_len() == 0 {
        trim(stripped)
    } else {
        whole
    };
    match read_json(body.as_str()) {
        Some(data) => Ok(Report { data, entries }),
        None => {
            let f: Fields = Fields::new().with("success", Json::Bool(false)).with(
                "message",
                jtext("解析结果失败"),
            ).with("raw", jtext(stripped));
            assert(f.view() =~= seq![
                ("success"@, JsonV::Bool(false)),
                ("message"@, JsonV::Str("解析结果失败"@)),
                ("raw"@, JsonV::Str(stripped@)),
            ]);
            Err(f.object())
        },
    }
}

// ------------------------------------------------------------------ the recycle bin

/// What became of an entry: it was refused because its path is protected, it was
/// moved, or it could not be moved.
#[derive(Debug, Clone, Copy, PartialEq, Eq, Structural)]
pub enum Move {
    Refused,
    Done,
    Failed,
}

/// The path of an entry.
pub open spec fn path_or_empty(e: JsonV) -> Seq<char> {
    match text_member(e, "path"@) {
        Some(p) => p,
        None => Seq::empty(),
    }
}

/// Whether an entry may be moved: what is printed is trusted less than what was
/// scanned, so its path is judged again.
pub fn may_move(e: &Json, long: &Option<String>, r: &ProtectRoots) -> (out: bool)
    ensures
        out == !protected_norm(normal_path(long_path(path_or_empty(e.view()), *long)), r.view()),
{
    let none: &str = "";
    proof {
        reveal_strlit("");
        assert(none@ =~= Seq::empty());
    }
    let p: &str = match e.text("path") {
        Some(t) => t,
        None => none,
    };
    !is_protected_norm(lexically_normalize(to_long_path(p, long).as_str()).as_str(), r)
}

/// A sum held within 64 bits with a sign.
pub fn add64(a: i64, b: i64) -> (out: i64)
    ensures
        out == clamp64(a + b),
{
    clamp(a as i128 + b as i128)
}

fn clamp(n: i128) -> (out: i64)
    ensures
        out == clamp64(n as int),
{
    if n > i64::MAX as i128 {
        i64::MAX
    } else if n < i64::MIN as i128 {
        i64::MIN
    } else {
        n as i64
    }
}

/// What became of the entries of an item: how many were moved, how many were not, and
/// how many bytes were moved.
pub ghost struct Stat {
    pub seen: bool,
    pub ok: nat,
    pub fail: nat,
    pub bytes: int,
}

/// What became of the entries of an item among the first `n`.
pub open spec fn stat_of(entries: Seq<JsonV>, moves: Seq<Move>, id: Seq<char>, n: int) -> Stat
    decreases n,
{
    if n <= 0 {
        Stat { seen: false, ok: 0, fail: 0, bytes: 0 }
    } else {
        let before = stat_of(entries, moves, id, n - 1);
        if id_or_empty(entries[n - 1]) != id {
            before
        } else if moves[n - 1] == Move::Done {
            Stat {
                seen: true,
                ok: before.ok + 1,
                fail: before.fail,
                bytes: clamp64(before.bytes + whole_of(member(entries[n - 1], "size"@))),
            }
        } else {
            Stat { seen: true, fail: before.fail + 1, ..before }
        }
    }
}

/// An entry that could not be moved, as it is kept for another try.
pub open spec fn failure_value(e: JsonV) -> JsonV {
    JsonV::Obj(
        seq![
            (
                "id"@,
                match member(e, "id"@) {
                    Some(v) => v,
                    None => JsonV::Null,
                },
            ),
            ("path"@, JsonV::Str(path_or_empty(e))),
            ("size"@, JsonV::Num(signed_dec(whole_of(member(e, "size"@))))),
            ("isDir"@, JsonV::Bool(bool_member(e, "isDir"@) == Some(true))),
        ],
    )
}

/// The entries among the first `n` that could not be moved. What was refused is not
/// kept for another try.
pub open spec fn failures_of(entries: Seq<JsonV>, moves: Seq<Move>, n: int) -> Seq<JsonV>
    decreases n,
{
    if n <= 0 {
        Seq::empty()
    } else if moves[n - 1] == Move::Failed {
        failures_of(entries, moves, n - 1).push(failure_value(entries[n - 1]))
    } else {
        failures_of(entries, moves, n - 1)
    }
}

struct StatX {
    seen: bool,
    ok: u64,
    fail: u64,
    bytes: i64,
}

fn text_or_empty(e: &Json, key: &str) -> (out: String)
    ensures
        out@ == (match text_member(e.view(), key@) {
            Some(t) => t,
            None => Seq::empty(),
        }),
{
    match e.text(key) {
        Some(t) => t.to_owned(),
        None => {
            let none: String = String::new();
            assert(none@ =~= Seq::empty());
            none
        },
    }
}

fn count_moves(entries: &Vec<Json>, moves: &Vec<Move>, id: &str) -> (out: StatX)
    requires
        entries@.len() == moves@.len(),
    ensures
        stat_of(values(entries@), moves@, id@, entries@.len() as int) == (Stat {
            seen: out.seen,
            ok: out.ok as nat,
            fail: out.fail as nat,
            bytes: out.bytes as int,
        }),
{
    let ghost ev = values(entries@);
    let mut s: StatX = StatX { seen: false, ok: 0, fail: 0, bytes: 0 };
    let mut i: usize = 0;
    while i < entries.len()
        invariant
            i <= entries.len(),
            entries@.len() == moves@.len(),
            ev == values(entries@),
            s.ok <= i,
            s.fail <= i,
            stat_of(ev, moves@, id@, i as int) == (Stat {
                seen: s.seen,
                ok: s.ok as nat,
                fail: s.fail as nat,
                bytes: s.bytes as int,
            }),
        decreases entries@.len() - i,
    {
        assert(ev[i as int] == entries@[i as int].view());
        let own: String = text_or_empty(&entries[i], "id");
        if same(own.as_str(), id) {
            s.seen = true;
            if moves[i] == Move::Done {
                s.ok += 1;
                s.bytes = add64(s.bytes, whole_number(entries[i].get("size")));
            } else {
                s.fail += 1;
            }
        }
        i += 1;
    }
    s
}

fn collect_failures(entries: &Vec<Json>, moves: &Vec<Move>) -> (out: Vec<Json>)
    requires
        entries@.len() == moves@.len(),
    ensures
        values(out@) == failures_of(values(entries@), moves@, entries@.len() as int),
{
    let ghost ev = values(entries@);
    let mut out: Vec<Json> = Vec::new();
    let mut i: usize = 0;
    assert(values(out@) =~= Seq::empty());
    while i < entries.len()
        invariant
            i <= entries@.len(),
            entries@.len() == moves@.len(),
            ev == values(entries@),
            values(out@) == failures_of(ev, moves@, i as int),
        decreases entries@.len() - i,
    {
        let e: &Json = &entries[i];
        assert(ev[i as int] == e.view());
        if moves[i] == Move::Failed {
            let id: Json = match e.get("id") {
                Some(v) => copy_json(v),
                None => Json::Null,
            };
            let dir: bool = match e.flag("isDir") {
                Some(b) => b,
                None => false,
            };
            let f: Fields = Fields::new().with("id", id).with(
                "path",
                Json::Str(text_or_empty(e, "path")),
            ).with("size", jint(whole_number(e.get("size")))).with("isDir", Json::Bool(dir));
            assert(JsonV::Obj(f.view()) == failure_value(e.view())) by {
                assert(f.view() =~= failure_value(e.view())->Obj_0);
            }
            let v: Json = f.object();
            proof {
                lemma_values_push(out@, v);
            }
            out.push(v);
        }
        i += 1;
    }
    out
}

// ------------------------------------------------------------------------ the details

/// How an item ended whose entries were to be moved: its status and a message.
pub open spec fn moved_status(s: Stat) -> (Seq<char>, Seq<char>) {
    if s.fail == 0 {
        ("ok"@, "已移入回收站（"@ + dec(s.ok) + " 项，可在系统回收站还原）"@)
    } else if s.ok > 0 {
        (
            "partial"@,
            "已移入回收站 "@ + dec(s.ok) + " 项，"@ + dec(s.fail) + " 项失败（被占用）"@,
        )
    } else {
        ("error"@, "移入回收站失败（可能被占用）"@)
    }
}

/// A detail whose entries were to be moved. What is in the recycle bin frees nothing.
pub open spec fn moved_detail(d: JsonV, s: Stat) -> JsonV {
    if !s.seen {
        with_member(
            with_member(
                with_member(d, "status"@, JsonV::Str("ok"@)),
                "freed"@,
                JsonV::Num(dec(0)),
            ),
            "message"@,
            JsonV::Str("无可清理目标"@),
        )
    } else {
        with_member(
            with_member(
                with_member(
                    with_member(d, "freed"@, JsonV::Num(dec(0))),
                    "recycledBytes"@,
                    JsonV::Num(signed_dec(s.bytes)),
                ),
                "status"@,
                JsonV::Str(moved_status(s).0),
            ),
            "message"@,
            JsonV::Str(moved_status(s).1),
        )
    }
}

/// Whether the entries of a detail were to be moved.
pub open spec fn to_move(d: JsonV) -> bool {
    text_member(d, "status"@) == Some("recycle"@)
}

/// A detail after the entries were moved.
pub open spec fn settled(d: JsonV, entries: Seq<JsonV>, moves: Seq<Move>) -> JsonV {
    if to_move(d) {
        moved_detail(d, stat_of(entries, moves, id_or_empty(d), entries.len() as int))
    } else {
        d
    }
}

/// The bytes and the number of entries moved for the first `n` details.
pub open spec fn moved_sums(
    details: Seq<JsonV>,
    entries: Seq<JsonV>,
    moves: Seq<Move>,
    n: int,
) -> (int, int)
    decreases n,
{
    if n <= 0 {
        (0, 0)
    } else {
        let before = moved_sums(details, entries, moves, n - 1);
        let s = stat_of(entries, moves, id_or_empty(details[n - 1]), entries.len() as int);
        if to_move(details[n - 1]) && s.seen {
            (clamp64(before.0 + s.bytes), clamp64(before.1 + s.ok))
        } else {
            before
        }
    }
}

/// The sums over details: bytes freed, and how many ended well, in part, or were left
/// out.
pub ghost struct Summary {
    pub freed: int,
    pub success: nat,
    pub partial: nat,
    pub skipped: nat,
}

/// The sums over the first `n` details.
pub open spec fn summary_of(details: Seq<JsonV>, n: int) -> Summary
    decreases n,
{
    if n <= 0 {
        Summary { freed: 0, success: 0, partial: 0, skipped: 0 }
    } else {
        let before = summary_of(details, n - 1);
        let d = details[n - 1];
        let status = text_member(d, "status"@);
        Summary {
            freed: clamp64(before.freed + whole_of(member(d, "freed"@))),
            success: before.success + (if status == Some("ok"@) {
                1nat
            } else {
                0
            }),
            partial: before.partial + (if status == Some("partial"@) {
                1nat
            } else {
                0
            }),
            skipped: before.skipped + (if status == Some("skip"@) {
                1nat
            } else {
                0
            }),
        }
    }
}

/// The details of a result.
pub open spec fn details_in(data: JsonV) -> Seq<JsonV> {
    match array_member(data, "details"@) {
        Some(a) => a,
        None => Seq::empty(),
    }
}

/// The sums over the details of a result.
pub open spec fn summarized(data: JsonV) -> Summary {
    summary_of(details_in(data), details_in(data).len() as int)
}

/// How many of the first `n` details are errors.
pub open spec fn error_count(details: Seq<JsonV>, n: int) -> nat
    decreases n,
{
    if n <= 0 {
        0
    } else {
        error_count(details, n - 1) + (if text_member(details[n - 1], "status"@) == Some(
            "error"@,
        ) {
            1nat
        } else {
            0
        })
    }
}

/// A result after its entries were moved.
pub open spec fn recycled_data(data: JsonV, entries: Seq<JsonV>, moves: Seq<Move>) -> JsonV {
    let details = details_in(data);
    let sums = moved_sums(details, entries, moves, details.len() as int);
    let moved = if array_member(data, "details"@) is Some {
        with_member(
            data,
            "details"@,
            JsonV::Arr(Seq::new(details.len(), |i: int| settled(details[i], entries, moves))),
        )
    } else {
        data
    };
    let s = summarized(moved);
    let a = with_member(moved, "totalFreed"@, JsonV::Num(signed_dec(s.freed)));
    let b = with_member(a, "recycledBytes"@, JsonV::Num(signed_dec(sums.0)));
    let c = with_member(b, "recycledCount"@, JsonV::Num(signed_dec(sums.1)));
    let d = with_member(c, "success"@, JsonV::Num(dec(s.success)));
    let e = with_member(d, "partial"@, JsonV::Num(dec(s.partial)));
    with_member(e, "skipped"@, JsonV::Num(dec(s.skipped)))
}

/// The reply to a cleanup, given what became of the entries that were to be moved: the
/// result with what was moved, what could not be moved, and how many items failed or
/// ended in part. A cleanup is a success where no item failed.
pub open spec fn execute_reply(
    data: JsonV,
    entries: Seq<JsonV>,
    moves: Seq<Move>,
    to_recycle: bool,
) -> JsonV {
    let busy = to_recycle && entries.len() > 0;
    let settled_data = if busy {
        recycled_data(data, entries, moves)
    } else {
        data
    };
    let failures = if busy {
        failures_of(entries, moves, entries.len() as int)
    } else {
        Seq::empty()
    };
    let a = with_member(settled_data, "trashFailures"@, JsonV::Arr(failures));
    let failed = error_count(details_in(a), details_in(a).len() as int);
    let b = with_member(a, "failed"@, JsonV::Num(dec(failed)));
    let c = with_member(b, "partial"@, JsonV::Num(dec(summarized(a).partial)));
    JsonV::Obj(seq![("success"@, JsonV::Bool(failed == 0)), ("data"@, c)])
}

struct SummaryX {
    freed: i64,
    success: u64,
    partial: u64,
    skipped: u64,
    failed: u64,
}

fn has_status(d: &Json, status: &str) -> (out: bool)
    ensures
        out == (text_member(d.view(), "status"@) == Some(status@)),
{
    match d.text("status") {
        Some(t) => same(t, status),
        None => false,
    }
}

fn sum_details(data: &Json) -> (out: SummaryX)
    ensures
        summarized(data.view()) == (Summary {
            freed: out.freed as int,
            success: out.success as nat,
            partial: out.partial as nat,
            skipped: out.skipped as nat,
        }),
        out.failed == error_count(details_in(data.view()), details_in(data.view()).len() as int),
{
    let mut s: SummaryX = SummaryX { freed: 0, success: 0, partial: 0, skipped: 0, failed: 0 };
    if let Some(a) = data.array("details") {
        let ghost list = values(a@);
        assert(list.len() == a@.len());
        let mut i: usize = 0;
        while i < a.len()
            invariant
                i <= a.len(),
                list == values(a@),
                s.success <= i,
                s.partial <= i,
                s.skipped <= i,
                s.failed <= i,
                summary_of(list, i as int) == (Summary {
                    freed: s.freed as int,
                    success: s.success as nat,
                    partial: s.partial as nat,
                    skipped: s.skipped as nat,
                }),
                s.failed == error_count(list, i as int),
            decreases a@.len() - i,
        {
            let d: &Json = &a[i];
            assert(list[i as int] == d.view());
            s.freed = add64(s.freed, whole_number(d.get("freed")));
            if has_status(d, "ok") {
                s.success += 1;
            }
            if has_status(d, "partial") {
                s.partial += 1;
            }
            if has_status(d, "skip") {
                s.skipped += 1;
            }
            if has_status(d, "error") {
                s.failed += 1;
            }
            i += 1;
        }
    }
    s
}

/// The sums over the details of a result: bytes freed, and how many ended well, in
/// part, or were left out.
pub fn summarize_details(data: &Json) -> (out: (i64, u64, u64, u64))
    ensures
        summarized(data.view()) == (Summary {
            freed: out.0 as int,
            success: out.1 as nat,
            partial: out.2 as nat,
            skipped: out.3 as nat,
        }),
{
    let s: SummaryX = sum_details(data);
    (s.freed, s.success, s.partial, s.skipped)
}

fn settle_detail(d: Json, s: &StatX) -> (out: Json)
    ensures
        out.view() == moved_detail(
            d.view(),
            Stat {
                seen: s.seen,
                ok: s.ok as nat,
                fail: s.fail as nat,
                bytes: s.bytes as int,
            },
        ),
{
    if !s.seen {
        let d: Json = set_member(d, "status", jtext("ok"));
        let d: Json = set_member(d, "freed", jcount(0));
        return set_member(d, "message", jtext("无可清理目标"));
    }
    let status: &str = if s.fail == 0 {
        "ok"
    } else if s.ok > 0 {
        "partial"
    } else {
        "error"
    };
    let message: String = if s.fail == 0 {
        cat3("已移入回收站（", decimal(s.ok).as_str(), " 项，可在系统回收站还原）")
    } else if s.ok > 0 {
        let mut m: String = cat3("已移入回收站 ", decimal(s.ok).as_str(), " 项，");
        m.append(decimal(s.fail).as_str());
        m.append(" 项失败（被占用）");
        m
    } else {
        "移入回收站失败（可能被占用）".to_owned()
    };
    let d: Json = set_member(d, "freed", jcount(0));
    let d: Json = set_member(d, "recycledBytes", jint(s.bytes));
    let d: Json = set_member(d, "status", jtext(status));
    set_member(d, "message", Json::Str(message))
}

fn settle_details(a: &Vec<Json>, entries: &Vec<Json>, moves: &Vec<Move>) -> (out: (
    Vec<Json>,
    i64,
    i64,
))
    requires
        entries@.len() == moves@.len(),
    ensures
        values(out.0@) == Seq::new(
            a@.len(),
            |i: int| settled(values(a@)[i], values(entries@), moves@),
        ),
        (out.1 as int, out.2 as int) == moved_sums(
            values(a@),
            values(entries@),
            moves@,
            a@.len() as int,
        ),
{
    let ghost list = values(a@);
    let ghost ev = values(entries@);
    let mut out: Vec<Json> = Vec::new();
    let mut bytes: i64 = 0;
    let mut count: i64 = 0;
    let mut i: usize = 0;
    while i < a.len()
        invariant
            i <= a@.len(),
            list == values(a@),
            ev == values(entries@),
            entries@.len() == moves@.len(),
            out@.len() == i,
            forall|k: int|
                0 <= k < i ==> (#[trigger] out@[k]).view() == settled(list[k], ev, moves@),
            (bytes as int, count as int) == moved_sums(list, ev, moves@, i as int),
        decreases a@.len() - i,
    {
        let d: &Json = &a[i];
        assert(list[i as int] == d.view());
        assert(ev.len() == entries@.len());
        let id: String = text_or_empty(d, "id");
        let s: StatX = count_moves(entries, moves, id.as_str());
        let own: Json = copy_json(d);
        if has_status(d, "recycle") {
            if s.seen {
                bytes = add64(bytes, s.bytes);
                count = clamp(count as i128 + s.ok as i128);
            }
            out.push(settle_detail(own, &s));
        } else {
            out.push(own);
        }
        i += 1;
    }
    assert(values(out@) =~= Seq::new(
        a@.len(),
        |i: int| settled(values(a@)[i], values(entries@), moves@),
    ));
    (out, bytes, count)
}

fn recycle_data(data: Json, entries: &Vec<Json>, moves: &Vec<Move>) -> (out: Json)
    requires
        entries@.len() == moves@.len(),
    ensures
        out.view() == recycled_data(data.view(), values(entries@), moves@),
{
    let ghost details = details_in(data.view());
    let (list, bytes, count) = match data.array("details") {
        Some(a) => {
            let r: (Vec<Json>, i64, i64) = settle_details(a, entries, moves);
            assert(values(a@).len() == a@.len());
            (Some(r.0), r.1, r.2)
        },
        None => (None, 0i64, 0i64),
    };
    let moved: Json = match list {
        Some(l) => set_member(data, "details", jarray(l)),
        None => data,
    };
    let s: SummaryX = sum_details(&moved);
    let d: Json = set_member(moved, "totalFreed", jint(s.freed));
    let d: Json = set_member(d, "recycledBytes", jint(bytes));
    let d: Json = set_member(d, "recycledCount", jint(count));
    let d: Json = set_member(d, "success", jcount(s.success));
    let d: Json = set_member(d, "partial", jcount(s.partial));
    set_member(d, "skipped", jcount(s.skipped))
}

/// The reply to a cleanup, and what is kept for another try, given what became of the
/// entries that were to be moved.
pub fn finish_execute(report: Report, moves: &Vec<Move>, to_recycle: bool) -> (out: (
    Json,
    Vec<Json>,
))
    requires
        report.entries@.len() == moves@.len(),
    ensures
        out.0.view() == execute_reply(
            report.data.view(),
            values(report.entries@),
            moves@,
            to_recycle,
        ),
        values(out.1@) == (if to_recycle {
            failures_of(values(report.entries@), moves@, report.entries@.len() as int)
        } else {
            Seq::empty()
        }),
{
    let Report { data, entries } = report;
    let ghost ev = values(entries@);
    assert(ev.len() == entries@.len());
    let busy: bool = to_recycle && entries.len() > 0;
    let mut failures: Vec<Json> = Vec::new();
    assert(values(failures@) =~= Seq::empty());
    let mut data: Json = data;
    if busy {
        data = recycle_data(data, &entries, moves);
        failures = collect_failures(&entries, moves);
    }
    let kept: Vec<Json> = copy_items(&failures);
    let a: Json = set_member(data, "trashFailures", jarray(failures));
    let s: SummaryX = sum_details(&a);
    let b: Json = set_member(a, "failed", jcount(s.failed));
    let c: Json = set_member(b, "partial", jcount(s.partial));
    let f: Fields = Fields::new().with("success", Json::Bool(s.failed == 0)).with("data", c);
    assert(f.view() =~= seq![("success"@, JsonV::Bool(s.failed == 0)), ("data"@, c.view())]);
    (f.object(), kept)
}

/// Whether a directory that was moved is to be made anew.
pub fn needs_rebuild(e: &Json, m: Move, auto_rebuild: bool) -> (out: bool)
    ensures
        out == (m == Move::Done && auto_rebuild && bool_member(e.view(), "isDir"@) == Some(true)),
{
    let dir: bool = match e.flag("isDir") {
        Some(b) => b,
        None => false,
    };
    m == Move::Done && auto_rebuild && dir
}

// ------------------------------------------------------------------------------ laws

/// What was moved to the recycle bin, or could not be moved, frees nothing.
pub proof fn law_recycled_frees_nothing(d: JsonV, entries: Seq<JsonV>, moves: Seq<Move>)
    requires
        to_move(d),
    ensures
        member(settled(d, entries, moves), "freed"@) == Some(JsonV::Num(dec(0))),
        text_member(settled(d, entries, moves), "status"@) != Some("recycle"@),
{
    let s = stat_of(entries, moves, id_or_empty(d), entries.len() as int);
    let zero = JsonV::Num(dec(0));
    reveal_strlit("freed");
    reveal_strlit("status");
    reveal_strlit("message");
    reveal_strlit("recycledBytes");
    reveal_strlit("recycle");
    reveal_strlit("ok");
    reveal_strlit("partial");
    reveal_strlit("error");
    assert("freed"@[0] == 'f' && "status"@[0] == 's' && "message"@[0] == 'm'
        && "recycledBytes"@[0] == 'r');
    assert("recycle"@.len() == 7 && "ok"@.len() == 2 && "error"@.len() == 5);
    assert("partial"@[0] == 'p' && "recycle"@[0] == 'r');
    if !s.seen {
        let a = with_member(d, "status"@, JsonV::Str("ok"@));
        let b = with_member(a, "freed"@, zero);
        law_set_member(d, "status"@, JsonV::Str("ok"@), "freed"@);
        law_set_member(a, "freed"@, zero, "status"@);
        law_set_member(b, "message"@, JsonV::Str("无可清理目标"@), "freed"@);
        law_set_member(b, "message"@, JsonV::Str("无可清理目标"@), "status"@);
    } else {
        let st = moved_status(s);
        let a = with_member(d, "freed"@, zero);
        let b = with_member(a, "recycledBytes"@, JsonV::Num(signed_dec(s.bytes)));
        let c = with_member(b, "status"@, JsonV::Str(st.0));
        law_set_member(d, "freed"@, zero, "freed"@);
        law_set_member(a, "recycledBytes"@, JsonV::Num(signed_dec(s.bytes)), "freed"@);
        law_set_member(b, "status"@, JsonV::Str(st.0), "freed"@);
        law_set_member(c, "message"@, JsonV::Str(st.1), "freed"@);
        law_set_member(c, "message"@, JsonV::Str(st.1), "status"@);
    }
}

/// A request that names one thing that the last scan has not found is refused as a
/// whole.
pub proof fn law_unknown_item_refuses_all(
    list: Seq<JsonV>,
    snapshot: Seq<JsonV>,
    cwd: Option<Seq<char>>,
    i: int,
)
    requires
        0 <= i < list.len(),
        vouched(list[i], snapshot, cwd) is None,
    ensures
        validated(Some(JsonV::Arr(list)), snapshot, cwd) is None,
{
    lemma_not_vouched(list, snapshot, cwd, i, list.len() as int);
}

/// What may be cleaned up is what the scan has found, whatever else the request says
/// about it.
pub proof fn law_only_scanned_values(
    items: Option<JsonV>,
    snapshot: Seq<JsonV>,
    cwd: Option<Seq<char>>,
)
    requires
        validated(items, snapshot, cwd) is Some,
    ensures
        forall|i: int|
            0 <= i < (validated(items, snapshot, cwd)->0).len() ==> snapshot.contains(
                #[trigger] (validated(items, snapshot, cwd)->0)[i],
            ),
{
    let list = items->0->Arr_0;
    let out = validated(items, snapshot, cwd)->0;
    assert forall|i: int| 0 <= i < out.len() implies snapshot.contains(#[trigger] out[i]) by {
        lemma_all_vouched(list, snapshot, cwd, i, list.len() as int);
        let id = text_member(list[i], "id"@)->0;
        lemma_last_with_id(snapshot, id, snapshot.len() as int);
    }
}

proof fn lemma_all_vouched(
    list: Seq<JsonV>,
    snapshot: Seq<JsonV>,
    cwd: Option<Seq<char>>,
    i: int,
    n: int,
)
    requires
        0 <= i < n <= list.len(),
        all_vouched(list, snapshot, cwd, n),
    ensures
        vouched(list[i], snapshot, cwd) is Some,
    decreases n,
{
    if i < n - 1 {
        lemma_all_vouched(list, snapshot, cwd, i, n - 1);
    }
}

proof fn lemma_last_with_id(list: Seq<JsonV>, id: Seq<char>, n: int)
    requires
        0 <= n <= list.len(),
    ensures
        last_with_id(list, id, n) matches Some(i) ==> 0 <= i < list.len(),
    decreases n,
{
    if n > 0 {
        lemma_last_with_id(list, id, n - 1);
    }
}

} // verus!
