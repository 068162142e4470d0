//! The tasks that keep the system in order: one at a time, and what is answered.

use crate::commands::memory::{admin_reply, ask_admin};
use crate::commands::reply::{refuse, refused};
use crate::json::{text_member, values, Json, JsonV};
use crate::text::{cat, cat3, same, texts};
use crate::value::{bool_member, jarray, jtext, lemma_values_push, Fields};
use vstd::prelude::*;

verus! {

/// The position of the first task with a name, from `i` on.
pub open spec fn task_at(tasks: Seq<JsonV>, id: Seq<char>, i: int) -> Option<JsonV>
    decreases tasks.len() - i,
{
    if i < 0 || i >= tasks.len() {
        None
    } else if text_member(tasks[i], "id"@) == Some(id) {
        Some(tasks[i])
    } else {
        task_at(tasks, id, i + 1)
    }
}

/// Whether a task needs an administrator.
pub open spec fn task_needs_admin(t: JsonV) -> bool {
    bool_member(t, "admin"@) == Some(true)
}

/// Why a task is not run: the reply. `running` is the task that runs.
pub open spec fn run_refusal(
    id: Option<Seq<char>>,
    running: Option<Seq<char>>,
    tasks: Seq<JsonV>,
    admin: bool,
) -> Option<JsonV> {
    match id {
        None => Some(refused("缺少任务 ID"@)),
        Some(id) => if id.len() == 0 {
            Some(refused("缺少任务 ID"@))
        } else {
            match running {
                Some(r) => Some(
                    refused("已有维护任务在执行中（"@ + r + "），请等待完成"@),
                ),
                None => match task_at(tasks, id, 0) {
                    None => Some(refused("未知的维护任务: "@ + id)),
                    Some(t) => if task_needs_admin(t) && !admin {
                        Some(admin_reply("该维护任务需要管理员权限，请先提权"@))
                    } else {
                        None
                    },
                },
            }
        },
    }
}

/// The task that runs.
#[derive(Debug)]
pub struct Desk {
    pub running: Option<String>,
}

impl Desk {
    /// The name of the task that runs.
    pub open spec fn view(self) -> Option<Seq<char>> {
        match self.running {
            Some(r) => Some(r@),
            None => None,
        }
    }

    /// No task runs.
    pub fn new() -> (out: Self)
        ensures
            out.view() is None,
    {
        Desk { running: None }
    }

    /// Takes a task up; otherwise the reply, and all stays as it was.
    pub fn start(&mut self, task_id: Option<&str>, tasks: &Vec<Json>, admin: bool) -> (out: Result<
        (),
        Json,
    >)
        ensures
            ({
                let id = match task_id {
                    Some(t) => Some(t@),
                    None => None,
                };
                let r = run_refusal(id, old(self).view(), values(tasks@), admin);
                match out {
                    Ok(_) => r is None && final(self).view() == id,
                    Err(e) => r == Some(e.view()) && *final(self) == *old(self),
                }
            }),
    {
        let id: &str = match task_id {
            Some(t) => t,
            None => {
                return Err(refuse("缺少任务 ID"));
            },
        };
        if id.unicode_len() == 0 {
            return Err(refuse("缺少任务 ID"));
        }
        if let Some(r) = &self.running {
            let m: String = cat3("已有维护任务在执行中（", r.as_str(), "），请等待完成");
            return Err(refuse(m.as_str()));
        }
        let ghost tv = values(tasks@);
        assert(tv.len() == tasks@.len());
        let mut i: usize = 0;
        while i < tasks.len()
            invariant
                i <= tasks@.len(),
                tv == values(tasks@),
                tv.len() == tasks@.len(),
                task_id matches Some(t) && t@ == id@,
                id@.len() > 0,
                self.running is None,
                *self == *old(self),
                task_at(tv, id@, 0) == task_at(tv, id@, i as int),
            decreases tasks@.len() - i,
        {
            assert(tv[i as int] == tasks@[i as int].view());
            let named: bool = match tasks[i].text("id") {
                Some(t) => same(t, id),
                None => false,
            };
            if named {
                let needed: bool = match tasks[i].flag("admin") {
                    Some(b) => b,
                    None => false,
                };
                if needed && !admin {
                    return Err(ask_admin("该维护任务需要管理员权限，请先提权"));
                }
                self.running = Some(id.to_owned());
                return Ok(());
            }
            i += 1;
        }
        Err(refuse(cat("未知的维护任务: ", id).as_str()))
    }

    /// Lays the task down.
    pub fn finish(&mut self)
        ensures
            final(self).view() is None,
    {
        self.running = None;
    }
}

/// The data of a reply to a task.
pub open spec fn task_data(id: Seq<char>, result: Seq<char>, output: Seq<char>) -> JsonV {
    JsonV::Obj(
        seq![
            ("taskId"@, JsonV::Str(id)),
            ("result"@, JsonV::Str(result)),
            ("output"@, JsonV::Str(output)),
        ],
    )
}

/// The reply to a task.
pub open spec fn task_reply(
    id: Seq<char>,
    ok: bool,
    message: Seq<char>,
    result: Seq<char>,
    output: Seq<char>,
) -> JsonV {
    JsonV::Obj(
        seq![
            ("success"@, JsonV::Bool(ok)),
            ("message"@, JsonV::Str(message)),
            ("data"@, task_data(id, result, output)),
        ],
    )
}

fn answer(id: &str, ok: bool, message: &str, result: &str, output: &str) -> (out: Json)
    ensures
        out.view() == task_reply(id@, ok, message@, result@, output@),
{
    let d: Fields = Fields::new().with("taskId", jtext(id)).with("result", jtext(result)).with(
        "output",
        jtext(output),
    );
    assert(d.view() =~= task_data(id@, result@, output@)->Obj_0);
    let f: Fields = Fields::new().with("success", Json::Bool(ok)).with(
        "message",
        jtext(message),
    ).with("data", d.object());
    assert(f.view() =~= task_reply(id@, ok, message@, result@, output@)->Obj_0);
    f.object()
}

/// What is told while a task runs.
pub open spec fn task_line(id: Seq<char>, line: Seq<char>) -> JsonV {
    JsonV::Obj(seq![("taskId"@, JsonV::Str(id)), ("line"@, JsonV::Str(line))])
}

/// The reply to a task that has run, and the line that is told where it succeeded.
pub fn run_result(task_id: &str, told: Result<(bool, String), String>) -> (out: (
    Json,
    Option<Json>,
))
    ensures
        match told {
            Ok((true, m)) => out.0.view() == task_reply(task_id@, true, m@, "ok"@, m@)
                && (out.1 matches Some(l) && l.view() == task_line(task_id@, m@)),
            Ok((false, m)) => out.0.view() == task_reply(
                task_id@,
                false,
                "原生执行未成功: "@ + m@,
                "fail"@,
                m@,
            ) && out.1 is None,
            Err(e) => out.0.view() == task_reply(
                task_id@,
                false,
                "原生执行异常: "@ + e@,
                "error"@,
                e@,
            ) && out.1 is None,
        },
{
    match told {
        Ok((ok, m)) => {
            if ok {
                let l: Fields = Fields::new().with("taskId", jtext(task_id)).with(
                    "line",
                    jtext(m.as_str()),
                );
                assert(l.view() =~= task_line(task_id@, m@)->Obj_0);
                (answer(task_id, true, m.as_str(), "ok", m.as_str()), Some(l.object()))
            } else {
                let t: String = cat("原生执行未成功: ", m.as_str());
                (answer(task_id, false, t.as_str(), "fail", m.as_str()), None)
            }
        },
        Err(e) => {
            let t: String = cat("原生执行异常: ", e.as_str());
            (answer(task_id, false, t.as_str(), "error", e.as_str()), None)
        },
    }
}

/// Texts as values.
pub open spec fn text_values(l: Seq<Seq<char>>) -> Seq<JsonV> {
    l.map_values(|t: Seq<char>| JsonV::Str(t))
}

/// The reply to a question for the tasks.
pub open spec fn list_of_tasks(tasks: Seq<JsonV>, categories: Seq<Seq<char>>) -> JsonV {
    JsonV::Obj(
        seq![
            ("success"@, JsonV::Bool(true)),
            ("data"@, JsonV::Arr(tasks)),
            ("categories"@, JsonV::Arr(text_values(categories))),
        ],
    )
}

/// The reply to a question for the tasks.
pub fn tasks_reply(tasks: Vec<Json>, categories: &Vec<String>) -> (out: Json)
    ensures
        out.view() == list_of_tasks(values(tasks@), texts(categories@)),
{
    let ghost cv = texts(categories@);
    assert(cv.len() == categories@.len());
    let mut names: Vec<Json> = Vec::new();
    assert(values(names@) =~= text_values(cv.take(0)));
    let mut i: usize = 0;
    while i < categories.len()
        invariant
            i <= categories@.len(),
            cv == texts(categories@),
            cv.len() == categories@.len(),
            values(names@) == text_values(cv.take(i as int)),
        decreases categories@.len() - i,
    {
        assert(cv[i as int] == categories@[i as int]@);
        let t: Json = jtext(categories[i].as_str());
        proof {
            lemma_values_push(names@, t);
        }
        names.push(t);
        i += 1;
        assert(text_values(cv.take(i as int)) =~= text_values(cv.take(i - 1)).push(
            JsonV::Str(cv[i - 1]),
        ));
    }
    assert(cv.take(cv.len() as int) =~= cv);
    let ghost tv = values(tasks@);
    let f: Fields = Fields::new().with("success", Json::Bool(true)).with(
        "data",
        jarray(tasks),
    ).with("categories", jarray(names));
    assert(f.view() =~= list_of_tasks(tv, cv)->Obj_0);
    f.object()
}

// ------------------------------------------------------------------------------------ laws

/// While one task runs no other is taken up.
pub proof fn law_one_task_at_a_time(
    id: Option<Seq<char>>,
    running: Seq<char>,
    tasks: Seq<JsonV>,
    admin: bool,
)
    ensures
        run_refusal(id, Some(running), tasks, admin) is Some,
{
}

/// A task that needs an administrator is not run without one.
pub proof fn law_admin_task_waits(id: Seq<char>, running: Option<Seq<char>>, tasks: Seq<JsonV>)
    requires
        task_at(tasks, id, 0) matches Some(t) && task_needs_admin(t),
    ensures
        run_refusal(Some(id), running, tasks, false) is Some,
{
}

} // verus!
