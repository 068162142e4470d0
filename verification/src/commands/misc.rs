//! Small commands: traces of other tools, the names of dialogs, the built-in notes.

use crate::commands::reply::{grant, granted, refuse, refused};
use crate::docx::{decode_lossy, lossy_text};
use crate::json::{member, Json, JsonV};
use crate::text::{first_chars, has, lowercase, occurs, take_chars};
use crate::value::{json_in, jtext, read_json, Fields};
use vstd::prelude::*;

verus! {

// --------------------------------------------------------------------- traces of other tools

/// Which trace of a tool that changes windows there is: `listing` is what the list of
/// processes says, where it could be asked, and `task` whether its task is planned.
pub open spec fn tool_trace(listing: Option<Seq<u8>>, task: bool) -> Option<Seq<char>> {
    if listing matches Some(l) && occurs(lowercase(lossy_text(l)), "dwmblurglass.exe"@) {
        Some("dwm-blur-tool"@)
    } else if task {
        Some("dwm-blur-task"@)
    } else {
        None
    }
}

/// Which trace of a tool that changes windows there is.
pub fn detect_dwm_inject_tools(listing: Option<&Vec<u8>>, task: bool) -> (out: Option<String>)
    ensures
        ({
            let r = tool_trace(
                match listing {
                    Some(l) => Some(l@),
                    None => None,
                },
                task,
            );
            match out {
                Some(k) => r == Some(k@),
                None => r is None,
            }
        }),
{
    if let Some(l) = listing {
        let t: String = decode_lossy(l).to_lowercase();
        if has(t.as_str(), "dwmblurglass.exe") {
            return Some("dwm-blur-tool".to_owned());
        }
    }
    if task {
        Some("dwm-blur-task".to_owned())
    } else {
        None
    }
}

/// The reply to a question for such a trace.
pub open spec fn trace_reply(kind: Option<Seq<char>>) -> JsonV {
    JsonV::Obj(
        seq![
            ("detected"@, JsonV::Bool(kind is Some)),
            (
                "kind"@,
                match kind {
                    Some(k) => JsonV::Str(k),
                    None => JsonV::Null,
                },
            ),
        ],
    )
}

/// The reply to a question for such a trace.
pub fn dwm_reply(kind: &Option<String>) -> (out: Json)
    ensures
        out.view() == trace_reply(
            match kind {
                Some(k) => Some(k@),
                None => None,
            },
        ),
{
    let k: Json = match kind {
        Some(k) => jtext(k.as_str()),
        None => Json::Null,
    };
    let f: Fields = Fields::new().with("detected", Json::Bool(kind.is_some())).with("kind", k);
    assert(f.view() =~= trace_reply(
        match kind {
            Some(k) => Some(k@),
            None => None,
        },
    )->Obj_0);
    f.object()
}

// ----------------------------------------------------------------------------- the dialogs

/// How much of a dialog's name is put down.
pub const MODAL_NAME_MAX: usize = 40;

/// The name of a dialog: its own, else its title, else a general one.
pub open spec fn dialog_name(info: Option<JsonV>) -> Seq<char> {
    let named = match info {
        Some(v) => match member(v, "id"@) {
            Some(n) => Some(n),
            None => member(v, "title"@),
        },
        None => None,
    };
    first_chars(
        match named {
            Some(JsonV::Str(t)) => t,
            _ => "modal"@,
        },
        MODAL_NAME_MAX as nat,
    )
}

/// The name of a dialog.
pub fn modal_id(info: Option<&Json>) -> (out: String)
    ensures
        out@ == dialog_name(
            match info {
                Some(v) => Some(v.view()),
                None => None,
            },
        ),
{
    let named: Option<&Json> = match info {
        Some(v) => match v.get("id") {
            Some(n) => Some(n),
            None => v.get("title"),
        },
        None => None,
    };
    let name: &str = match named {
        Some(v) => match v.as_str() {
            Some(t) => t,
            None => "modal",
        },
        None => "modal",
    };
    take_chars(name, MODAL_NAME_MAX)
}

// ------------------------------------------------------------------------------- the notes

/// The reply to a question for the built-in notes, which are a text.
pub fn intro_load(notes: &str) -> (out: Json)
    ensures
        out.view() == (match json_in(notes@) {
            Some(d) => granted(d),
            None => refused("本地简介库读取失败"@),
        }),
{
    match read_json(notes) {
        Some(d) => grant(d),
        None => refuse("本地简介库读取失败"),
    }
}

/// The name of a dialog is never longer than what is put down of it.
pub proof fn law_dialog_name_is_short(info: Option<JsonV>)
    ensures
        dialog_name(info).len() <= MODAL_NAME_MAX,
{
}

} // verus!
