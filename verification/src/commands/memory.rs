//! Memory: what is freed, which processes there are, and which of them may be ended.

use crate::commands::reply::{refuse, refused};
use crate::double::is_integral;
use crate::json::{array_member, member, values, Json, JsonV};
use crate::numbers::signed_dec;
use crate::slots::Slots;
use crate::text::{cat3, chars_of, ends_with, lowercase, same, string_of, texts, trim, trimmed};
use crate::value::{
    bool_member, compact, compact_text, is_zero, jarray, jint, jtext, number_of, read_number_of,
    whole_part, Fields, NumberV,
};
use vstd::prelude::*;

verus! {

// ------------------------------------------------------------------- what must not be ended

/// Processes that the system itself consists of.
pub open spec fn core_name(n: Seq<char>) -> bool {
    n == "system"@ || n == "idle"@ || n == "registry"@ || n == "memory compression"@ || n == "secure system"@ || n == "smss"@ || n == "csrss"@ || n == "wininit"@ || n == "winlogon"@ || n == "services"@ || n == "lsass"@ || n == "lsaiso"@ || n == "svchost"@ || n == "fontdrvhost"@ || n == "dwm"@
}

/// Processes of the shell and of the session.
pub open spec fn shell_name(n: Seq<char>) -> bool {
    n == "sihost"@ || n == "ctfmon"@ || n == "explorer"@ || n == "audiodg"@ || n == "wudfhost"@ || n == "spoolsv"@ || n == "searchindexer"@ || n == "shellexperiencehost"@ || n == "startmenuexperiencehost"@ || n == "taskhostw"@ || n == "runtimebroker"@ || n == "sppsvc"@ || n == "wmiprvse"@ || n == "dllhost"@ || n == "securityhealthservice"@
}

/// Processes that serve the system.
pub open spec fn service_name(n: Seq<char>) -> bool {
    n == "securityhealthsystray"@ || n == "msmpeng"@ || n == "nissrv"@ || n == "systemsettings"@ || n == "applicationframehost"@ || n == "conhost"@ || n == "logonui"@ || n == "userinit"@ || n == "msiexec"@ || n == "trustedinstaller"@ || n == "tiworker"@ || n == "backgroundtaskhost"@ || n == "textinputhost"@ || n == "useroobebroker"@
}

/// A name without the ending of a program.
pub open spec fn without_exe(n: Seq<char>) -> Seq<char> {
    if ".exe"@.is_suffix_of(n) {
        n.take(n.len() - ".exe"@.len())
    } else {
        n
    }
}

/// Whether the system cannot do without a process.
pub open spec fn is_critical(name: Seq<char>) -> bool {
    let n = trimmed(without_exe(lowercase(name)));
    core_name(n) || shell_name(n) || service_name(n)
}

fn is_core_name(n: &str) -> (out: bool)
    ensures
        out == core_name(n@),
{
    same(n, "system") || same(n, "idle") || same(n, "registry") || same(n, "memory compression") || same(n, "secure system") || same(n, "smss") || same(n, "csrss") || same(n, "wininit") || same(n, "winlogon") || same(n, "services") || same(n, "lsass") || same(n, "lsaiso") || same(n, "svchost") || same(n, "fontdrvhost") || same(n, "dwm")
}

fn is_shell_name(n: &str) -> (out: bool)
    ensures
        out == shell_name(n@),
{
    same(n, "sihost") || same(n, "ctfmon") || same(n, "explorer") || same(n, "audiodg") || same(n, "wudfhost") || same(n, "spoolsv") || same(n, "searchindexer") || same(n, "shellexperiencehost") || same(n, "startmenuexperiencehost") || same(n, "taskhostw") || same(n, "runtimebroker") || same(n, "sppsvc") || same(n, "wmiprvse") || same(n, "dllhost") || same(n, "securityhealthservice")
}

fn is_service_name(n: &str) -> (out: bool)
    ensures
        out == service_name(n@),
{
    same(n, "securityhealthsystray") || same(n, "msmpeng") || same(n, "nissrv") || same(n, "systemsettings") || same(n, "applicationframehost") || same(n, "conhost") || same(n, "logonui") || same(n, "userinit") || same(n, "msiexec") || same(n, "trustedinstaller") || same(n, "tiworker") || same(n, "backgroundtaskhost") || same(n, "textinputhost") || same(n, "useroobebroker")
}

/// Whether the system cannot do without a process.
pub fn is_critical_process_name(name: &str) -> (out: bool)
    ensures
        out == is_critical(name@),
{
    let l: String = name.to_lowercase();
    let s: String = if ends_with(l.as_str(), ".exe") {
        proof {
            reveal_strlit(".exe");
        }
        let v: Vec<char> = chars_of(l.as_str());
        let head: String = string_of(&v, 0, v.len() - 4);
        assert(head@ =~= l@.take(l@.len() - 4));
        head
    } else {
        l
    };
    let n: String = trim(s.as_str());
    is_core_name(n.as_str()) || is_shell_name(n.as_str()) || is_service_name(n.as_str())
}

// ------------------------------------------------------------------------- the processes

/// The number that a value stands for: a number, or a text that writes one.
pub open spec fn plain_number(v: JsonV) -> Option<NumberV> {
    match v {
        JsonV::Num(_) => number_of(Some(v)),
        JsonV::Str(_) => number_of(Some(v)),
        _ => None,
    }
}

/// Whether a number is finite and has no fraction.
pub open spec fn is_whole(n: NumberV) -> bool {
    n.size matches Some(x) && x.0 % x.1 == 0
}

/// The whole number that a value stands for.
pub open spec fn whole_in(v: JsonV) -> Option<int> {
    match plain_number(v) {
        Some(n) => if is_whole(n) {
            Some(whole_part(n))
        } else {
            None
        },
        None => None,
    }
}

/// The whole number that a value stands for.
pub fn js_int(v: &Json) -> (out: Option<i64>)
    ensures
        whole_in(v.view()) == (match out {
            Some(n) => Some(n as int),
            None => None,
        }),
{
    match v {
        Json::Num(_) => {},
        Json::Str(_) => {},
        _ => {
            return None;
        },
    }
    match read_number_of(Some(v)) {
        Some(n) => {
            if n.finite && is_integral(n.size) {
                Some(n.whole())
            } else {
                None
            }
        },
        None => None,
    }
}

/// A value as a text; nothing where there is none.
pub open spec fn loose_text(v: Option<JsonV>) -> Seq<char> {
    match v {
        None => Seq::empty(),
        Some(JsonV::Null) => Seq::empty(),
        Some(JsonV::Str(t)) => t,
        Some(x) => compact(x),
    }
}

fn read_loose(v: Option<&Json>) -> (out: String)
    ensures
        out@ == loose_text(
            match v {
                Some(x) => Some(x.view()),
                None => None,
            },
        ),
{
    match v {
        Some(Json::Str(t)) => t.clone(),
        Some(Json::Null) => empty_text(),
        Some(x) => compact_text(x),
        None => empty_text(),
    }
}

fn empty_text() -> (out: String)
    ensures
        out@ == Seq::<char>::empty(),
{
    let none: String = String::new();
    assert(none@ =~= Seq::empty());
    none
}

/// A process that was listed: its number, its name and where its program is.
#[derive(Debug)]
pub struct ProcInfo {
    pub id: i64,
    pub name: String,
    pub path: String,
}

/// The mathematical value of a process that was listed.
pub struct ProcV {
    pub id: i64,
    pub name: Seq<char>,
    pub path: Seq<char>,
}

impl ProcInfo {
    pub open spec fn view(self) -> ProcV {
        ProcV { id: self.id, name: self.name@, path: self.path@ }
    }
}

/// The values of processes.
pub open spec fn proc_views(v: Seq<ProcInfo>) -> Seq<ProcV> {
    Seq::new(v.len(), |i: int| v[i].view())
}

/// The processes among the first `n` values: those with a number above zero.
pub open spec fn listed_procs(list: Seq<JsonV>, n: int) -> Seq<ProcV>
    decreases n,
{
    if n <= 0 {
        Seq::empty()
    } else {
        let before = listed_procs(list, n - 1);
        let p = list[n - 1];
        match member(p, "Id"@) {
            Some(v) => match whole_in(v) {
                Some(id) => if id > 0 {
                    before.push(
                        ProcV {
                            id: id as i64,
                            name: loose_text(member(p, "ProcessName"@)),
                            path: loose_text(member(p, "Path"@)),
                        },
                    )
                } else {
                    before
                },
                None => before,
            },
            None => before,
        }
    }
}

/// The processes that were last listed for a window.
pub open spec fn procs_of(s: Slots<Vec<ProcInfo>>, label: Seq<char>) -> Seq<ProcV> {
    if s.view().contains_key(label) {
        proc_views(s.view()[label]@)
    } else {
        Seq::empty()
    }
}

fn read_procs(processes: &Vec<Json>) -> (out: Vec<ProcInfo>)
    ensures
        proc_views(out@) == listed_procs(values(processes@), processes@.len() as int),
{
    let ghost pv = values(processes@);
    let mut out: Vec<ProcInfo> = Vec::new();
    let mut i: usize = 0;
    assert(proc_views(out@) =~= Seq::empty());
    while i < processes.len()
        invariant
            i <= processes@.len(),
            pv == values(processes@),
            proc_views(out@) == listed_procs(pv, i as int),
        decreases processes@.len() - i,
    {
        let p: &Json = &processes[i];
        assert(pv[i as int] == p.view());
        if let Some(v) = p.get("Id") {
            if let Some(id) = js_int(v) {
                if id > 0 {
                    let e: ProcInfo = ProcInfo {
                        id,
                        name: read_loose(p.get("ProcessName")),
                        path: read_loose(p.get("Path")),
                    };
                    let ghost before = proc_views(out@);
                    out.push(e);
                    assert(proc_views(out@) =~= before.push(e.view()));
                }
            }
        }
        i += 1;
    }
    out
}

/// Keeps the processes that were listed for a window, in place of those of its last list.
/// Those of the other windows stay.
pub fn save_snapshot(snapshots: &mut Slots<Vec<ProcInfo>>, label: &str, processes: &Vec<Json>)
    requires
        old(snapshots).wf(),
    ensures
        final(snapshots).wf(),
        procs_of(*final(snapshots), label@) == listed_procs(
            values(processes@),
            processes@.len() as int,
        ),
        forall|l: Seq<char>|
            l != label@ ==> #[trigger] procs_of(*final(snapshots), l) == procs_of(
                *old(snapshots),
                l,
            ),
{
    let list: Vec<ProcInfo> = read_procs(processes);
    snapshots.set(label, list);
}

/// The last of the first `n` processes with a number.
pub open spec fn proc_with(list: Seq<ProcV>, id: int, n: int) -> Option<ProcV>
    decreases n,
{
    if n <= 0 {
        None
    } else if list[n - 1].id == id {
        Some(list[n - 1])
    } else {
        proc_with(list, id, n - 1)
    }
}

fn find_proc(list: &Vec<ProcInfo>, pid: i64) -> (out: Option<&ProcInfo>)
    ensures
        match out {
            Some(p) => proc_with(proc_views(list@), pid as int, list@.len() as int) == Some(
                p.view(),
            ),
            None => proc_with(proc_views(list@), pid as int, list@.len() as int) is None,
        },
{
    let ghost lv = proc_views(list@);
    let mut n: usize = list.len();
    while n > 0
        invariant
            n <= list@.len(),
            lv == proc_views(list@),
            proc_with(lv, pid as int, list@.len() as int) == proc_with(lv, pid as int, n as int),
        decreases n,
    {
        assert(lv[n - 1] == list@[n - 1].view());
        if list[n - 1].id == pid {
            return Some(&list[n - 1]);
        }
        n -= 1;
    }
    None
}

/// The process with a number in the last list of a window.
pub fn lookup_snapshot<'a>(snapshots: &'a Slots<Vec<ProcInfo>>, label: &str, pid: i64) -> (out:
    Option<&'a ProcInfo>)
    requires
        snapshots.wf(),
    ensures
        ({
            let list = procs_of(*snapshots, label@);
            match out {
                Some(p) => proc_with(list, pid as int, list.len() as int) == Some(p.view()),
                None => proc_with(list, pid as int, list.len() as int) is None,
            }
        }),
{
    match snapshots.get(label) {
        Some(list) => {
            assert(proc_views(list@).len() == list@.len());
            find_proc(list, pid)
        },
        None => None,
    }
}

/// The process that is ended; otherwise why none is. This program is never ended, neither
/// by its number nor under another one, and nothing that was not listed, and nothing that
/// the system cannot do without.
pub open spec fn kill_target(
    pid: Option<JsonV>,
    own: u32,
    own_exe: Seq<char>,
    list: Seq<ProcV>,
) -> Result<ProcV, Seq<char>> {
    let n = match pid {
        Some(v) => match whole_in(v) {
            Some(n) => n,
            None => 0,
        },
        None => 0,
    };
    if n <= 0 {
        Err("无效的进程 ID"@)
    } else if n == own {
        Err("不能结束 Trim 自身进程"@)
    } else {
        match proc_with(list, n, list.len() as int) {
            None => Err("进程不是最近一次扫描结果，已拒绝结束"@),
            Some(p) => if lowercase(own_exe).len() > 0 && lowercase(p.path).len() > 0 && lowercase(
                p.path,
            ) == lowercase(own_exe) {
                Err("不能结束 Trim 自身进程（含渲染/GPU 等子进程）"@)
            } else if is_critical(p.name) {
                Err("系统关键进程 "@ + p.name + " 已受保护，不能结束"@)
            } else {
                Ok(p)
            },
        }
    }
}

/// The process that is ended; otherwise the reply. Nothing may be ended before this was
/// asked. Only the last list of the window that asks counts.
pub fn kill_gate<'a>(
    pid: Option<&Json>,
    own: u32,
    own_exe: &str,
    snapshots: &'a Slots<Vec<ProcInfo>>,
    label: &str,
) -> (out: Result<&'a ProcInfo, Json>)
    requires
        snapshots.wf(),
    ensures
        ({
            let t = kill_target(
                match pid {
                    Some(v) => Some(v.view()),
                    None => None,
                },
                own,
                own_exe@,
                procs_of(*snapshots, label@),
            );
            match out {
                Ok(p) => t == Ok::<ProcV, Seq<char>>(p.view()),
                Err(r) => t matches Err(m) && r.view() == refused(m),
            }
        }),
{
    let n: i64 = match pid {
        Some(v) => match js_int(v) {
            Some(n) => n,
            None => 0,
        },
        None => 0,
    };
    if n <= 0 {
        return Err(refuse("无效的进程 ID"));
    }
    if n == own as i64 {
        return Err(refuse("不能结束 Trim 自身进程"));
    }
    let p: &ProcInfo = match lookup_snapshot(snapshots, label, n) {
        Some(p) => p,
        None => {
            return Err(refuse("进程不是最近一次扫描结果，已拒绝结束"));
        },
    };
    let a: String = own_exe.to_lowercase();
    let b: String = p.path.to_lowercase();
    if a.as_str().unicode_len() > 0 && b.as_str().unicode_len() > 0 && same(
        b.as_str(),
        a.as_str(),
    ) {
        return Err(refuse("不能结束 Trim 自身进程（含渲染/GPU 等子进程）"));
    }
    if is_critical_process_name(p.name.as_str()) {
        return Err(
            refuse(cat3("系统关键进程 ", p.name.as_str(), " 已受保护，不能结束").as_str()),
        );
    }
    Ok(p)
}

/// A process as it is listed.
pub open spec fn proc_entry(id: int, name: Seq<char>, mem: int, path: Seq<char>) -> JsonV {
    JsonV::Obj(
        seq![
            ("Id"@, JsonV::Num(signed_dec(id))),
            ("ProcessName"@, JsonV::Str(name)),
            ("mem"@, JsonV::Num(signed_dec(mem))),
            ("Path"@, JsonV::Str(path)),
        ],
    )
}

/// A process as it is listed.
pub fn make_proc(id: u32, name: &str, working_set: i64, path: &str) -> (out: Json)
    ensures
        out.view() == proc_entry(id as int, name@, working_set as int, path@),
{
    let f: Fields = Fields::new().with("Id", jint(id as i64)).with(
        "ProcessName",
        jtext(name),
    ).with("mem", jint(working_set)).with("Path", jtext(path));
    assert(f.view() =~= proc_entry(id as int, name@, working_set as int, path@)->Obj_0);
    f.object()
}

/// The reply to a question for the processes.
pub open spec fn listed_reply(list: Seq<JsonV>) -> JsonV {
    JsonV::Obj(
        seq![
            ("success"@, JsonV::Bool(true)),
            ("processes"@, JsonV::Arr(list)),
            ("engine"@, JsonV::Str("rust"@)),
        ],
    )
}

/// The reply to a question for the processes.
pub fn processes_reply(list: Vec<Json>) -> (out: Json)
    ensures
        out.view() == listed_reply(values(list@)),
{
    let ghost lv = values(list@);
    let f: Fields = Fields::new().with("success", Json::Bool(true)).with(
        "processes",
        jarray(list),
    ).with("engine", jtext("rust"));
    assert(f.view() =~= listed_reply(lv)->Obj_0);
    f.object()
}

// ------------------------------------------------------------------------------- freeing

/// The texts among the first `n` values.
pub open spec fn texts_of(list: Seq<JsonV>, n: int) -> Seq<Seq<char>>
    decreases n,
{
    if n <= 0 {
        Seq::empty()
    } else {
        match list[n - 1] {
            JsonV::Str(t) => texts_of(list, n - 1).push(t),
            _ => texts_of(list, n - 1),
        }
    }
}

/// The reply that an administrator is needed.
pub open spec fn admin_reply(message: Seq<char>) -> JsonV {
    JsonV::Obj(
        seq![
            ("success"@, JsonV::Bool(false)),
            ("needAdmin"@, JsonV::Bool(true)),
            ("message"@, JsonV::Str(message)),
        ],
    )
}

/// The reply that an administrator is needed.
pub fn ask_admin(message: &str) -> (out: Json)
    ensures
        out.view() == admin_reply(message@),
{
    let f: Fields = Fields::new().with("success", Json::Bool(false)).with(
        "needAdmin",
        Json::Bool(true),
    ).with("message", jtext(message));
    assert(f.view() =~= admin_reply(message@)->Obj_0);
    f.object()
}

/// What is freed; otherwise the reply.
pub fn clean_gate(items: &Vec<Json>, admin: bool) -> (out: Result<Vec<String>, Json>)
    ensures
        ({
            let l = texts_of(values(items@), items@.len() as int);
            match out {
                Ok(v) => l.len() > 0 && admin && texts(v@) == l,
                Err(r) => if l.len() == 0 {
                    r.view() == refused("未选择要清理的内存区域"@)
                } else {
                    !admin && r.view() == admin_reply("内存清理需要管理员权限，请先提权"@)
                },
            }
        }),
{
    let ghost iv = values(items@);
    let mut out: Vec<String> = Vec::new();
    let mut i: usize = 0;
    assert(texts(out@) =~= Seq::empty());
    while i < items.len()
        invariant
            i <= items@.len(),
            iv == values(items@),
            texts(out@) == texts_of(iv, i as int),
        decreases items@.len() - i,
    {
        assert(iv[i as int] == items@[i as int].view());
        if let Some(t) = items[i].as_str() {
            let t: String = t.to_owned();
            proof {
                crate::text::lemma_texts_push(out@, t);
            }
            out.push(t);
        }
        i += 1;
    }
    assert(texts(out@).len() == out@.len());
    if out.len() == 0 {
        Err(refuse("未选择要清理的内存区域"))
    } else if !admin {
        Err(ask_admin("内存清理需要管理员权限，请先提权"))
    } else {
        Ok(out)
    }
}

/// Whether one of the first `n` results went well.
pub open spec fn any_ok(results: Seq<JsonV>) -> bool {
    exists|i: int| 0 <= i < results.len() && bool_member(#[trigger] results[i], "ok"@) == Some(true)
}

/// The reply to a freeing: it went well where one part of it did.
pub open spec fn clean_reply(told: Option<JsonV>) -> JsonV {
    match told {
        None => refused("解析清理结果失败"@),
        Some(d) => match array_member(d, "results"@) {
            Some(l) => JsonV::Obj(
                seq![
                    ("success"@, JsonV::Bool(any_ok(l))),
                    ("data"@, d),
                    ("engine"@, JsonV::Str("rust"@)),
                ],
            ),
            None => refused(
                if loose_text(member(d, "error"@)).len() == 0 {
                    "原生内存清理返回格式异常"@
                } else {
                    loose_text(member(d, "error"@))
                },
            ),
        },
    }
}

fn find_ok(l: &Vec<Json>) -> (out: bool)
    ensures
        out == any_ok(values(l@)),
{
    let ghost lv = values(l@);
    assert(lv.len() == l@.len());
    let mut i: usize = 0;
    while i < l.len()
        invariant
            i <= l@.len(),
            lv == values(l@),
            lv.len() == l@.len(),
            forall|k: int| 0 <= k < i ==> bool_member(#[trigger] lv[k], "ok"@) != Some(true),
        decreases l@.len() - i,
    {
        assert(lv[i as int] == l@[i as int].view());
        if let Some(b) = l[i].flag("ok") {
            if b {
                return true;
            }
        }
        i += 1;
    }
    false
}

/// The reply to a freeing, given what was told of it.
pub fn clean_result(told: &str) -> (out: Json)
    ensures
        out.view() == clean_reply(crate::value::json_in(told@)),
{
    let d: Json = match crate::value::read_json(told) {
        Some(d) => d,
        None => {
            return refuse("解析清理结果失败");
        },
    };
    let ok: bool = match d.array("results") {
        Some(l) => find_ok(l),
        None => {
            let m: String = read_loose(d.get("error"));
            return if m.as_str().unicode_len() == 0 {
                refuse("原生内存清理返回格式异常")
            } else {
                refuse(m.as_str())
            };
        },
    };
    let ghost dv = d.view();
    let f: Fields = Fields::new().with("success", Json::Bool(ok)).with("data", d).with(
        "engine",
        jtext("rust"),
    );
    assert(f.view() =~= clean_reply(Some(dv))->Obj_0);
    f.object()
}

/// Whether something that needs an administrator is done; otherwise the reply.
pub fn stubborn_gate(admin: bool, block: bool) -> (out: Option<Json>)
    ensures
        match out {
            Some(r) => !admin && r.view() == admin_reply(
                if block {
                    "顽固软件自启阻断需要管理员权限，请先提权"@
                } else {
                    "顽固软件专杀需要管理员权限，请先提权"@
                },
            ),
            None => admin,
        },
{
    if admin {
        None
    } else if block {
        Some(ask_admin("顽固软件自启阻断需要管理员权限，请先提权"))
    } else {
        Some(ask_admin("顽固软件专杀需要管理员权限，请先提权"))
    }
}

/// How many parts failed, by its sign: minus one, zero or one.
pub open spec fn failed_sign(d: JsonV) -> int {
    match member(d, "failedCount"@) {
        Some(JsonV::Num(t)) => match number_of(Some(JsonV::Num(t))) {
            Some(n) => if is_zero(n) {
                0
            } else if n.negative {
                -1
            } else {
                1
            },
            None => 0,
        },
        _ => 0,
    }
}

/// The reply to a blocking: one part that failed makes it partial.
pub open spec fn block_reply(d: JsonV) -> JsonV {
    JsonV::Obj(
        seq![
            ("success"@, JsonV::Bool(failed_sign(d) == 0)),
            ("partial"@, JsonV::Bool(failed_sign(d) > 0)),
            ("data"@, d),
        ],
    )
}

/// The reply to a blocking.
pub fn block_result(d: Json) -> (out: Json)
    ensures
        out.view() == block_reply(d.view()),
{
    let mut zero: bool = true;
    let mut above: bool = false;
    if let Some(v) = d.get("failedCount") {
        if let Json::Num(_) = v {
            if let Some(n) = read_number_of(Some(v)) {
                zero = n.is_zero();
                above = !zero && !n.negative;
            }
        }
    }
    assert(zero == (failed_sign(d.view()) == 0) && above == (failed_sign(d.view()) > 0));
    let ghost dv = d.view();
    let f: Fields = Fields::new().with("success", Json::Bool(zero)).with(
        "partial",
        Json::Bool(above),
    ).with("data", d);
    assert(f.view() =~= block_reply(dv)->Obj_0);
    f.object()
}

// ------------------------------------------------------------------------------------ laws

/// This program is never ended, whatever was listed.
pub proof fn law_never_itself(pid: JsonV, own: u32, own_exe: Seq<char>, list: Seq<ProcV>)
    requires
        whole_in(pid) == Some(own as int),
    ensures
        kill_target(Some(pid), own, own_exe, list) is Err,
{
}

/// What the system cannot do without is never ended.
pub proof fn law_critical_stays(
    pid: Option<JsonV>,
    own: u32,
    own_exe: Seq<char>,
    list: Seq<ProcV>,
)
    requires
        kill_target(pid, own, own_exe, list) is Ok,
    ensures
        !is_critical(kill_target(pid, own, own_exe, list)->Ok_0.name),
{
}

/// Only a process that was listed is ended.
pub proof fn law_only_listed(pid: Option<JsonV>, own: u32, own_exe: Seq<char>, list: Seq<ProcV>)
    requires
        kill_target(pid, own, own_exe, list) is Ok,
    ensures
        list.contains(kill_target(pid, own, own_exe, list)->Ok_0),
{
    let n = whole_in(pid->0)->0;
    lemma_proc_with(list, n, list.len() as int);
}

proof fn lemma_proc_with(list: Seq<ProcV>, id: int, n: int)
    requires
        0 <= n <= list.len(),
        proc_with(list, id, n) is Some,
    ensures
        list.contains(proc_with(list, id, n)->0),
    decreases n,
{
    if n > 0 && list[n - 1].id != id {
        lemma_proc_with(list, id, n - 1);
    } else if n > 0 {
        assert(list[n - 1] == proc_with(list, id, n)->0);
    }
}

} // verus!
