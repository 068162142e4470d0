//! Before a cleanup: which files are in use, and by whom.

use crate::cleanup_scan::{checklocked_json, fatal_text, lines_text, locked_outcome};
use crate::commands::cleanup_execute::{add64, find_known, known};
use crate::commands::reply::{complain, complaint, refuse, refused};
use crate::json::{array_member, first_member, member, text_member, values, Json, JsonV};
use crate::numbers::{clamp64, signed_dec};
use crate::text::{behind, dec, has, lines, lines_in, lowercase, occurs, strip_front, texts};
use crate::value::{
    bool_member, copy_json, integer, integer_of, jarray, jcount, jint, json_in, json_out, jtext,
    lemma_values_push, put, read_json, set_member, whole_number, whole_of, write_json, Fields,
};
use crate::world::World;
use vstd::prelude::*;

verus! {

// ------------------------------------------------------------------- files in use

/// How many files are looked at.
pub const PLAN_LOCK_CAP: usize = 20_000;

/// A file that is looked at, with the id of its item.
pub open spec fn watched_value(path: Seq<char>, id: Seq<char>) -> JsonV {
    JsonV::Obj(seq![("path"@, JsonV::Str(path)), ("id"@, JsonV::Str(id))])
}

/// The files among the first `n` of an item that have a path.
pub open spec fn watched_files(list: Seq<JsonV>, id: Seq<char>, n: int) -> Seq<JsonV>
    decreases n,
{
    if n <= 0 {
        Seq::empty()
    } else {
        let before = watched_files(list, id, n - 1);
        match text_member(list[n - 1], "path"@) {
            Some(p) => if p.len() > 0 {
                before.push(watched_value(p, id))
            } else {
                before
            },
            None => before,
        }
    }
}

/// The files of the first `n` items that are asked about, as the last scan has found
/// them.
pub open spec fn watched(ids: Seq<JsonV>, snapshot: Seq<JsonV>, n: int) -> Seq<JsonV>
    decreases n,
{
    if n <= 0 {
        Seq::empty()
    } else {
        let before = watched(ids, snapshot, n - 1);
        match ids[n - 1] {
            JsonV::Str(id) => match known(snapshot, id) {
                Some(it) => match array_member(it, "files"@) {
                    Some(list) => before + watched_files(list, id, list.len() as int),
                    None => before,
                },
                None => before,
            },
            _ => before,
        }
    }
}

fn push_watched(list: &Vec<Json>, id: &str, out: &mut Vec<Json>)
    ensures
        values(final(out)@) == values(old(out)@) + watched_files(
            values(list@),
            id@,
            list@.len() as int,
        ),
{
    let ghost start = values(out@);
    let ghost lv = values(list@);
    let mut i: usize = 0;
    assert(start + watched_files(lv, id@, 0) =~= start);
    while i < list.len()
        invariant
            i <= list@.len(),
            lv == values(list@),
            values(out@) == start + watched_files(lv, id@, i as int),
        decreases list@.len() - i,
    {
        assert(lv[i as int] == list@[i as int].view());
        if let Some(p) = list[i].text("path") {
            if p.unicode_len() > 0 {
                let f: Fields = Fields::new().with("path", jtext(p)).with("id", jtext(id));
                assert(f.view() =~= seq![("path"@, JsonV::Str(p@)), ("id"@, JsonV::Str(id@))]);
                let v: Json = f.object();
                proof {
                    lemma_values_push(out@, v);
                }
                out.push(v);
            }
        }
        i += 1;
        assert(values(out@) =~= start + watched_files(lv, id@, i as int));
    }
}

/// The files of the items that are asked about, as the last scan has found them.
pub fn watched_list(ids: &Option<Json>, snapshot: &Vec<Json>) -> (out: Vec<Json>)
    ensures
        values(out@) == (match ids {
            Some(Json::Arr(a)) => watched(values(a@), values(snapshot@), a@.len() as int),
            _ => Seq::empty(),
        }),
{
    let mut out: Vec<Json> = Vec::new();
    assert(values(out@) =~= Seq::empty());
    if let Some(Json::Arr(a)) = ids {
        let ghost av = values(a@);
        let mut i: usize = 0;
        while i < a.len()
            invariant
                i <= a@.len(),
                av == values(a@),
                values(out@) == watched(av, values(snapshot@), i as int),
            decreases a@.len() - i,
        {
            assert(av[i as int] == a@[i as int].view());
            if let Some(id) = a[i].as_str() {
                if let Some(it) = find_known(snapshot, id) {
                    if let Some(list) = it.array("files") {
                        assert(values(list@).len() == list@.len());
                        push_watched(list, id, &mut out);
                    }
                }
            }
            i += 1;
        }
    }
    out
}

/// A count that stands under a key, one higher.
pub open spec fn counted_up(m: Seq<(Seq<char>, JsonV)>, key: Seq<char>) -> Seq<
    (Seq<char>, JsonV),
> {
    put(
        m,
        key,
        JsonV::Num(signed_dec(clamp64(whole_of(crate::json::first_member(m, key)) + 1))),
    )
}

/// What is known of the files in use: the reports, how many there are for each item
/// and each application, and the processes.
pub ghost struct InUse {
    pub locked: Seq<JsonV>,
    pub by_item: Seq<(Seq<char>, JsonV)>,
    pub by_app: Seq<(Seq<char>, JsonV)>,
    pub procs: Seq<JsonV>,
    pub pids: Seq<int>,
}

/// Whether an application must not be ended: the shell of the system.
pub open spec fn is_shell(app: Seq<char>) -> bool {
    occurs(lowercase(app), "explorer"@) || occurs(app, "资源管理器"@)
}

/// Whether a process must not be ended: one that is told to be critical, or the shell.
pub open spec fn is_critical(p: JsonV, app: Seq<char>) -> bool {
    bool_member(p, "critical"@) == Some(true) || is_shell(app)
}

/// A process as it is reported.
pub open spec fn proc_value(pid: int, app: Seq<char>, critical: bool) -> JsonV {
    JsonV::Obj(
        seq![
            ("pid"@, JsonV::Num(signed_dec(pid))),
            ("app"@, JsonV::Str(app)),
            ("critical"@, JsonV::Bool(critical)),
        ],
    )
}

/// What is known after one more process. This process itself does not count, nor one
/// without a number or an application; each process is reported once.
pub open spec fn with_proc(u: InUse, p: JsonV, own: int) -> InUse {
    match (integer_of(member(p, "pid"@)), text_member(p, "app"@)) {
        (Some(pid), Some(app)) => if app.len() == 0 || pid == own {
            u
        } else {
            InUse {
                by_app: counted_up(u.by_app, app),
                procs: if u.pids.contains(pid) {
                    u.procs
                } else {
                    u.procs.push(proc_value(pid, app, is_critical(p, app)))
                },
                pids: if u.pids.contains(pid) {
                    u.pids
                } else {
                    u.pids.push(pid)
                },
                ..u
            }
        },
        _ => u,
    }
}

/// What is known after the first `n` processes of a report.
pub open spec fn with_procs(u: InUse, list: Seq<JsonV>, own: int, n: int) -> InUse
    decreases n,
{
    if n <= 0 {
        u
    } else {
        with_proc(with_procs(u, list, own, n - 1), list[n - 1], own)
    }
}

/// What is known after one more report.
pub open spec fn with_report(u: InUse, r: JsonV, own: int) -> InUse {
    match text_member(r, "path"@) {
        Some(p) => if p.len() == 0 {
            u
        } else {
            let noted = InUse {
                locked: u.locked.push(r),
                by_item: match text_member(r, "id"@) {
                    Some(id) => if id.len() > 0 {
                        counted_up(u.by_item, id)
                    } else {
                        u.by_item
                    },
                    None => u.by_item,
                },
                ..u
            };
            match array_member(r, "procs"@) {
                Some(list) => with_procs(noted, list, own, list.len() as int),
                None => noted,
            }
        },
        None => u,
    }
}

/// What is known after the first `n` lines.
pub open spec fn in_use(list: Seq<Seq<char>>, own: int, n: int) -> InUse
    decreases n,
{
    if n <= 0 {
        InUse {
            locked: Seq::empty(),
            by_item: Seq::empty(),
            by_app: Seq::empty(),
            procs: Seq::empty(),
            pids: Seq::empty(),
        }
    } else {
        let before = in_use(list, own, n - 1);
        match behind(list[n - 1], "@@LOCKED@@"@) {
            Some(rest) => match json_in(rest) {
                Some(r) => with_report(before, r, own),
                None => before,
            },
            None => before,
        }
    }
}

struct InUseX {
    locked: Vec<Json>,
    by_item: Json,
    by_app: Json,
    procs: Vec<Json>,
    pids: Vec<i64>,
}

impl InUseX {
    spec fn holds(self, u: InUse) -> bool {
        &&& values(self.locked@) == u.locked
        &&& self.by_item.view() == JsonV::Obj(u.by_item)
        &&& self.by_app.view() == JsonV::Obj(u.by_app)
        &&& values(self.procs@) == u.procs
        &&& self.pids@.len() == u.pids.len()
        &&& forall|i: int| 0 <= i < u.pids.len() ==> (#[trigger] self.pids@[i]) == u.pids[i]
    }
}

fn count_up(o: Json, key: &str) -> (out: Json)
    requires
        o.view() is Obj,
    ensures
        out.view() == JsonV::Obj(counted_up(o.view()->Obj_0, key@)),
{
    let n: i64 = add64(whole_number(o.get(key)), 1);
    set_member(o, key, jint(n))
}

fn has_pid(pids: &Vec<i64>, pid: i64) -> (out: bool)
    ensures
        out == exists|i: int| 0 <= i < pids@.len() && pids@[i] == pid,
{
    let mut i: usize = 0;
    while i < pids.len()
        invariant
            i <= pids@.len(),
            forall|k: int| 0 <= k < i ==> pids@[k] != pid,
        decreases pids@.len() - i,
    {
        if pids[i] == pid {
            return true;
        }
        i += 1;
    }
    false
}

fn take_proc(x: InUseX, p: &Json, own: i64, Ghost(u): Ghost<InUse>) -> (out: InUseX)
    requires
        x.holds(u),
    ensures
        out.holds(with_proc(u, p.view(), own as int)),
{
    let pid: i64 = match integer(p.get("pid")) {
        Some(n) => n,
        None => {
            return x;
        },
    };
    let app: &str = match p.text("app") {
        Some(t) => t,
        None => {
            return x;
        },
    };
    if app.unicode_len() == 0 || pid == own {
        return x;
    }
    let InUseX { locked, by_item, by_app, procs, pids } = x;
    let by_app: Json = count_up(by_app, app);
    let seen: bool = has_pid(&pids, pid);
    proof {
        if seen {
            let i = choose|i: int| 0 <= i < pids@.len() && pids@[i] == pid;
            assert(u.pids[i] == pid as int);
        } else if u.pids.contains(pid as int) {
            let i = choose|i: int| 0 <= i < u.pids.len() && u.pids[i] == pid as int;
            assert(pids@[i] == pid);
        }
        assert(seen == u.pids.contains(pid as int));
    }
    let mut procs: Vec<Json> = procs;
    let mut pids: Vec<i64> = pids;
    if !seen {
        let told: bool = match p.flag("critical") {
            Some(b) => b,
            None => false,
        };
        let critical: bool = told || has(app.to_lowercase().as_str(), "explorer") || has(app, "资源管理器");
        let f: Fields = Fields::new().with("pid", jint(pid)).with("app", jtext(app)).with(
            "critical",
            Json::Bool(critical),
        );
        assert(f.view() =~= seq![
            ("pid"@, JsonV::Num(signed_dec(pid as int))),
            ("app"@, JsonV::Str(app@)),
            ("critical"@, JsonV::Bool(is_critical(p.view(), app@))),
        ]);
        let v: Json = f.object();
        proof {
            lemma_values_push(procs@, v);
        }
        procs.push(v);
        pids.push(pid);
    }
    InUseX { locked, by_item, by_app, procs, pids }
}

fn take_report(x: InUseX, r: Json, own: i64, Ghost(u): Ghost<InUse>) -> (out: InUseX)
    requires
        x.holds(u),
    ensures
        out.holds(with_report(u, r.view(), own as int)),
{
    let fine: bool = match r.text("path") {
        Some(p) => p.unicode_len() > 0,
        None => false,
    };
    if !fine {
        return x;
    }
    let InUseX { locked, by_item, by_app, procs, pids } = x;
    let by_item: Json = match r.text("id") {
        Some(id) => if id.unicode_len() > 0 {
            count_up(by_item, id)
        } else {
            by_item
        },
        None => by_item,
    };
    let kept: Json = copy_json(&r);
    let mut locked: Vec<Json> = locked;
    proof {
        lemma_values_push(locked@, kept);
    }
    locked.push(kept);
    let mut cur: InUseX = InUseX { locked, by_item, by_app, procs, pids };
    let ghost noted = InUse {
        locked: u.locked.push(r.view()),
        by_item: match text_member(r.view(), "id"@) {
            Some(id) => if id.len() > 0 {
                counted_up(u.by_item, id)
            } else {
                u.by_item
            },
            None => u.by_item,
        },
        ..u
    };
    assert(cur.holds(noted));
    if let Some(list) = r.array("procs") {
        let ghost lv = values(list@);
        assert(lv.len() == list@.len());
        let mut i: usize = 0;
        while i < list.len()
            invariant
                i <= list@.len(),
                lv == values(list@),
                cur.holds(with_procs(noted, lv, own as int, i as int)),
            decreases list@.len() - i,
        {
            assert(lv[i as int] == list@[i as int].view());
            cur = take_proc(
                cur,
                &list[i],
                own,
                Ghost(with_procs(noted, lv, own as int, i as int)),
            );
            i += 1;
        }
    }
    cur
}

fn read_in_use(stdout: &str, own: i64) -> (out: InUseX)
    ensures
        out.holds(in_use(lines_in(stdout@), own as int, lines_in(stdout@).len() as int)),
{
    let list: Vec<String> = lines(stdout);
    let ghost lv = lines_in(stdout@);
    assert(lv.len() == list@.len());
    let mut cur: InUseX = InUseX {
        locked: Vec::new(),
        by_item: Fields::new().object(),
        by_app: Fields::new().object(),
        procs: Vec::new(),
        pids: Vec::new(),
    };
    assert(values(cur.locked@) =~= Seq::empty());
    assert(values(cur.procs@) =~= Seq::empty());
    let mut i: usize = 0;
    while i < list.len()
        invariant
            i <= list@.len(),
            lv == texts(list@),
            cur.holds(in_use(lv, own as int, i as int)),
        decreases list@.len() - i,
    {
        assert(lv[i as int] == list@[i as int]@);
        if let Some(rest) = strip_front(list[i].as_str(), "@@LOCKED@@") {
            if let Some(r) = read_json(rest.as_str()) {
                cur = take_report(cur, r, own, Ghost(in_use(lv, own as int, i as int)));
            }
        }
        i += 1;
    }
    cur
}

/// The processes among the first `n` that may be ended.
pub open spec fn may_end(procs: Seq<JsonV>, n: int) -> Seq<JsonV>
    decreases n,
{
    if n <= 0 {
        Seq::empty()
    } else if bool_member(procs[n - 1], "critical"@) == Some(false) {
        may_end(procs, n - 1).push(procs[n - 1])
    } else {
        may_end(procs, n - 1)
    }
}

/// The reply to the question for files in use.
pub open spec fn locked_reply(u: InUse, scanned: nat, truncated: bool) -> JsonV {
    JsonV::Obj(
        seq![
            ("success"@, JsonV::Bool(true)),
            ("locked"@, JsonV::Arr(u.locked)),
            ("byApp"@, JsonV::Obj(u.by_app)),
            ("procs"@, JsonV::Arr(u.procs)),
            ("lockedByItem"@, JsonV::Obj(u.by_item)),
            ("scanned"@, JsonV::Num(dec(scanned))),
            ("truncated"@, JsonV::Bool(truncated)),
        ],
    )
}

fn reply_locked(x: InUseX, scanned: usize, truncated: bool, Ghost(u): Ghost<InUse>) -> (out: Json)
    requires
        x.holds(u),
    ensures
        out.view() == locked_reply(u, scanned as nat, truncated),
{
    let f: Fields = Fields::new().with("success", Json::Bool(true)).with(
        "locked",
        jarray(x.locked),
    ).with("byApp", x.by_app).with("procs", jarray(x.procs)).with("lockedByItem", x.by_item).with(
        "scanned",
        jcount(scanned as u64),
    ).with("truncated", Json::Bool(truncated));
    assert(f.view() =~= locked_reply(u, scanned as nat, truncated)->Obj_0);
    f.object()
}

fn pick_may_end(procs: &Vec<Json>) -> (out: Vec<Json>)
    ensures
        values(out@) == may_end(values(procs@), procs@.len() as int),
{
    let ghost pv = values(procs@);
    let mut out: Vec<Json> = Vec::new();
    let mut i: usize = 0;
    assert(values(out@) =~= Seq::empty());
    while i < procs.len()
        invariant
            i <= procs@.len(),
            pv == values(procs@),
            values(out@) == may_end(pv, i as int),
        decreases procs@.len() - i,
    {
        assert(pv[i as int] == procs@[i as int].view());
        if procs[i].flag("critical") == Some(false) {
            let c: Json = copy_json(&procs[i]);
            proof {
                lemma_values_push(out@, c);
            }
            out.push(c);
        }
        i += 1;
    }
    out
}

/// The question about files, as it is put to the scanner.
pub open spec fn question_text(list: Seq<JsonV>) -> Seq<char> {
    json_out(JsonV::Obj(seq![("files"@, JsonV::Arr(list))]))
}

/// The files that are looked at: no more than the limit.
pub open spec fn looked_at(list: Seq<JsonV>) -> Seq<JsonV> {
    if list.len() > PLAN_LOCK_CAP {
        list.take(PLAN_LOCK_CAP as int)
    } else {
        list
    }
}

/// Asks which of the files are in use: the reply, and the processes that may then be
/// ended. `own` is the number of this process.
pub open spec fn check_outcome(list: Seq<JsonV>, own: int, world: World) -> (JsonV, Seq<JsonV>) {
    if list.len() == 0 {
        (locked_reply(in_use(Seq::empty(), own, 0), 0, false), Seq::empty())
    } else {
        let some = looked_at(list);
        match locked_outcome(question_text(some), world) {
            Ok(l) => {
                let text = lines_in(lines_text(l, l.len() as int));
                let u = in_use(text, own, text.len() as int);
                (
                    locked_reply(u, some.len(), list.len() > PLAN_LOCK_CAP),
                    may_end(u.procs, u.procs.len() as int),
                )
            },
            Err(m) => (
                refused(complaint(fatal_text(m), "占用检测退出码 2"@)),
                Seq::empty(),
            ),
        }
    }
}

fn first_files(list: Vec<Json>) -> (out: Vec<Json>)
    ensures
        values(out@) == looked_at(values(list@)),
{
    let n: usize = list.len();
    let mut list: Vec<Json> = list;
    assert(values(list@).len() == list@.len());
    if n > PLAN_LOCK_CAP {
        let ghost before = values(list@);
        list.truncate(PLAN_LOCK_CAP);
        assert(values(list@) =~= before.take(PLAN_LOCK_CAP as int));
    }
    list
}

/// Asks which of the files of the items are in use. Returns the reply and the
/// processes that may then be ended; those that must not be ended are never among
/// them.
pub fn check_locked(list: Vec<Json>, own: i64, world: &World) -> (out: (Json, Vec<Json>))
    ensures
        (out.0.view(), values(out.1@)) == check_outcome(values(list@), own as int, *world),
{
    let n: usize = list.len();
    assert(values(list@).len() == list@.len());
    let none: Vec<Json> = Vec::new();
    assert(values(none@) =~= Seq::empty());
    if n == 0 {
        let x: InUseX = InUseX {
            locked: Vec::new(),
            by_item: Fields::new().object(),
            by_app: Fields::new().object(),
            procs: Vec::new(),
            pids: Vec::new(),
        };
        assert(values(x.locked@) =~= Seq::empty());
        assert(values(x.procs@) =~= Seq::empty());
        return (reply_locked(x, 0, false, Ghost(in_use(Seq::empty(), own as int, 0))), none);
    }
    let some: Vec<Json> = first_files(list);
    assert(values(some@).len() == some@.len());
    let scanned: usize = some.len();
    let f: Fields = Fields::new().with("files", jarray(some));
    assert(f.view() =~= seq![("files"@, JsonV::Arr(values(some@)))]);
    let question: String = write_json(&f.object());
    let (code, stdout, stderr) = checklocked_json(question.as_str(), world);
    if code != 0 {
        return (refuse(complain(stderr.as_str(), "占用检测退出码 2").as_str()), none);
    }
    let x: InUseX = read_in_use(stdout.as_str(), own);
    let ghost text = lines_in(stdout@);
    let ghost u = in_use(text, own as int, text.len() as int);
    assert(x.procs@.len() == values(x.procs@).len());
    let white: Vec<Json> = pick_may_end(&x.procs);
    (reply_locked(x, scanned, n > PLAN_LOCK_CAP, Ghost(u)), white)
}

// ------------------------------------------------------------------------------ laws

/// A process that is marked as critical is never among those that may be ended.
pub proof fn law_critical_never_ended(procs: Seq<JsonV>, n: int)
    requires
        0 <= n <= procs.len(),
    ensures
        forall|i: int|
            0 <= i < may_end(procs, n).len() ==> bool_member(
                #[trigger] may_end(procs, n)[i],
                "critical"@,
            ) == Some(false),
    decreases n,
{
    if n > 0 {
        law_critical_never_ended(procs, n - 1);
    }
}

/// Whether a process that belongs to the shell is marked as critical.
spec fn marked(v: JsonV) -> bool {
    match text_member(v, "app"@) {
        Some(app) => is_shell(app) ==> bool_member(v, "critical"@) == Some(true),
        None => false,
    }
}

proof fn lemma_value_marked(pid: int, app: Seq<char>, critical: bool)
    requires
        is_shell(app) ==> critical,
    ensures
        text_member(proc_value(pid, app, critical), "app"@) == Some(app),
        bool_member(proc_value(pid, app, critical), "critical"@) == Some(critical),
        marked(proc_value(pid, app, critical)),
{
    reveal_strlit("pid");
    reveal_strlit("app");
    reveal_strlit("critical");
    assert("pid"@[0] == 'p');
    assert("app"@[0] == 'a');
    assert("critical"@[0] == 'c');
    reveal_with_fuel(first_member, 4);
}

proof fn lemma_procs_marked(u: InUse, list: Seq<JsonV>, own: int, n: int)
    requires
        0 <= n <= list.len(),
        forall|i: int| 0 <= i < u.procs.len() ==> marked(#[trigger] u.procs[i]),
    ensures
        forall|i: int|
            0 <= i < with_procs(u, list, own, n).procs.len() ==> marked(
                #[trigger] with_procs(u, list, own, n).procs[i],
            ),
    decreases n,
{
    if n > 0 {
        lemma_procs_marked(u, list, own, n - 1);
        let p = list[n - 1];
        if let (Some(pid), Some(app)) = (integer_of(member(p, "pid"@)), text_member(p, "app"@)) {
            lemma_value_marked(pid, app, is_critical(p, app));
        }
        let before = with_procs(u, list, own, n - 1).procs;
        let now = with_procs(u, list, own, n).procs;
        assert forall|i: int| 0 <= i < now.len() implies marked(#[trigger] now[i]) by {
            if i < before.len() {
                assert(marked(before[i]));
                assert(now[i] == before[i]);
            }
        }
    }
}

proof fn lemma_in_use_marked(list: Seq<Seq<char>>, own: int, n: int)
    requires
        0 <= n <= list.len(),
    ensures
        forall|i: int|
            0 <= i < in_use(list, own, n).procs.len() ==> marked(
                #[trigger] in_use(list, own, n).procs[i],
            ),
    decreases n,
{
    if n > 0 {
        lemma_in_use_marked(list, own, n - 1);
        let before = in_use(list, own, n - 1);
        if let Some(rest) = behind(list[n - 1], "@@LOCKED@@"@) {
            if let Some(r) = json_in(rest) {
                if let Some(p) = text_member(r, "path"@) {
                    let noted = InUse {
                        locked: before.locked.push(r),
                        by_item: match text_member(r, "id"@) {
                            Some(id) => if id.len() > 0 {
                                counted_up(before.by_item, id)
                            } else {
                                before.by_item
                            },
                            None => before.by_item,
                        },
                        ..before
                    };
                    if let Some(procs) = array_member(r, "procs"@) {
                        lemma_procs_marked(noted, procs, own, procs.len() as int);
                    }
                }
            }
        }
    }
}

proof fn lemma_end_marked(procs: Seq<JsonV>, n: int)
    requires
        0 <= n <= procs.len(),
        forall|i: int| 0 <= i < procs.len() ==> marked(#[trigger] procs[i]),
    ensures
        forall|i: int|
            0 <= i < may_end(procs, n).len() ==> marked(#[trigger] may_end(procs, n)[i]),
    decreases n,
{
    if n > 0 {
        lemma_end_marked(procs, n - 1);
        let before = may_end(procs, n - 1);
        let now = may_end(procs, n);
        assert(marked(procs[n - 1]));
        assert forall|i: int| 0 <= i < now.len() implies marked(#[trigger] now[i]) by {
            if i < before.len() {
                assert(marked(before[i]));
                assert(now[i] == before[i]);
            }
        }
    }
}

/// Whatever a scan for files in use reports, the shell of the system is never among the
/// processes that may be ended.
pub proof fn law_shell_never_ended(list: Seq<Seq<char>>, own: int, n: int)
    requires
        0 <= n <= list.len(),
    ensures
        ({
            let procs = in_use(list, own, n).procs;
            let white = may_end(procs, procs.len() as int);
            forall|i: int|
                0 <= i < white.len() ==> match text_member(#[trigger] white[i], "app"@) {
                    Some(app) => !is_shell(app),
                    None => false,
                }
        }),
{
    let procs = in_use(list, own, n).procs;
    lemma_in_use_marked(list, own, n);
    lemma_end_marked(procs, procs.len() as int);
    law_critical_never_ended(procs, procs.len() as int);
}

/// A process that a report tells to be critical is not among those that may be ended,
/// unless it was noted before.
pub proof fn law_told_critical(u: InUse, p: JsonV, own: int)
    requires
        bool_member(p, "critical"@) == Some(true),
    ensures
        may_end(with_proc(u, p, own).procs, with_proc(u, p, own).procs.len() as int) == may_end(
            u.procs,
            u.procs.len() as int,
        ),
{
    if let (Some(pid), Some(app)) = (integer_of(member(p, "pid"@)), text_member(p, "app"@)) {
        lemma_value_marked(pid, app, true);
        let v = proc_value(pid, app, true);
        lemma_end_push(u.procs, v, u.procs.len() as int);
    }
}

proof fn lemma_end_push(procs: Seq<JsonV>, v: JsonV, n: int)
    requires
        0 <= n <= procs.len(),
    ensures
        may_end(procs.push(v), n) == may_end(procs, n),
    decreases n,
{
    if n > 0 {
        lemma_end_push(procs, v, n - 1);
        assert(procs.push(v)[n - 1] == procs[n - 1]);
    }
}

proof fn lemma_procs(u: InUse, list: Seq<JsonV>, own: int, n: int)
    requires
        0 <= n <= list.len(),
        !u.pids.contains(own),
    ensures
        !with_procs(u, list, own, n).pids.contains(own),
    decreases n,
{
    if n > 0 {
        lemma_procs(u, list, own, n - 1);
        let before = with_procs(u, list, own, n - 1);
        let now = with_procs(u, list, own, n);
        if now.pids.contains(own) {
            let i = choose|i: int| 0 <= i < now.pids.len() && now.pids[i] == own;
            if i < before.pids.len() {
                assert(before.pids[i] == own);
            }
        }
    }
}

/// This process itself is never among those that keep files in use.
pub proof fn law_own_process_left_out(list: Seq<Seq<char>>, own: int, n: int)
    requires
        0 <= n <= list.len(),
    ensures
        !in_use(list, own, n).pids.contains(own),
    decreases n,
{
    if n > 0 {
        law_own_process_left_out(list, own, n - 1);
        let before = in_use(list, own, n - 1);
        if let Some(rest) = behind(list[n - 1], "@@LOCKED@@"@) {
            if let Some(r) = json_in(rest) {
                if let Some(p) = text_member(r, "path"@) {
                    let noted = InUse {
                        locked: before.locked.push(r),
                        by_item: match text_member(r, "id"@) {
                            Some(id) => if id.len() > 0 {
                                counted_up(before.by_item, id)
                            } else {
                                before.by_item
                            },
                            None => before.by_item,
                        },
                        ..before
                    };
                    if let Some(procs) = array_member(r, "procs"@) {
                        lemma_procs(noted, procs, own, procs.len() as int);
                    }
                }
            }
        }
    }
}

} // verus!
