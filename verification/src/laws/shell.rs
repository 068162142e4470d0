//! What holds of the small replies: about the application, addresses, dialogs and measurements.

use crate::commands::app::{guide_reply, info_of, opened_url, AppFacts};
use crate::commands::device::device_reply;
use crate::commands::log::export_reply;
use crate::commands::misc::{dialog_name, tool_trace, trace_reply};
use crate::commands::netspeed::measured_reply;
use crate::commands::reply::{complaint, engine_told, Told};
use crate::docx::lossy_text;
use crate::json::{member, text_member, JsonV};
use crate::laws::cleanup::law_replies;
use crate::laws::object::lemma_member_at;
use crate::text::{ascii_lowercase, dec, lowercase, occurs, pieces, trimmed};
use crate::value::bool_member;
use vstd::prelude::*;

verus! {

proof fn lemma_keys()
    ensures
        "success"@ != "data"@,
        "success"@ != "engine"@,
        "success"@ != "path"@,
        "success"@ != "content"@,
        "success"@ != "ok"@,
        "success"@ != "reason"@,
        "success"@ != "protocol"@,
        "success"@ != "detected"@,
        "success"@ != "kind"@,
        "data"@ != "engine"@,
        "data"@ != "path"@,
        "data"@ != "content"@,
        "data"@ != "ok"@,
        "data"@ != "reason"@,
        "data"@ != "protocol"@,
        "data"@ != "detected"@,
        "data"@ != "kind"@,
        "engine"@ != "path"@,
        "engine"@ != "content"@,
        "engine"@ != "ok"@,
        "engine"@ != "reason"@,
        "engine"@ != "protocol"@,
        "engine"@ != "detected"@,
        "engine"@ != "kind"@,
        "path"@ != "content"@,
        "path"@ != "ok"@,
        "path"@ != "reason"@,
        "path"@ != "protocol"@,
        "path"@ != "detected"@,
        "path"@ != "kind"@,
        "content"@ != "ok"@,
        "content"@ != "reason"@,
        "content"@ != "protocol"@,
        "content"@ != "detected"@,
        "content"@ != "kind"@,
        "ok"@ != "reason"@,
        "ok"@ != "protocol"@,
        "ok"@ != "detected"@,
        "ok"@ != "kind"@,
        "reason"@ != "protocol"@,
        "reason"@ != "detected"@,
        "reason"@ != "kind"@,
        "protocol"@ != "detected"@,
        "protocol"@ != "kind"@,
        "detected"@ != "kind"@,
{
    reveal_strlit("success");
    reveal_strlit("data");
    reveal_strlit("engine");
    reveal_strlit("path");
    reveal_strlit("content");
    reveal_strlit("ok");
    reveal_strlit("reason");
    reveal_strlit("protocol");
    reveal_strlit("detected");
    reveal_strlit("kind");
    assert("success"@.len() == 7);
    assert("data"@.len() == 4);
    assert("engine"@.len() == 6);
    assert("path"@.len() == 4);
    assert("content"@.len() == 7);
    assert("ok"@.len() == 2);
    assert("reason"@.len() == 6);
    assert("protocol"@.len() == 8);
    assert("detected"@.len() == 8);
    assert("kind"@.len() == 4);
    assert("success"@[0] != "content"@[0]);
    assert("data"@[0] != "path"@[0]);
    assert("data"@[0] != "kind"@[0]);
    assert("engine"@[0] != "reason"@[0]);
    assert("path"@[0] != "kind"@[0]);
    assert("protocol"@[0] != "detected"@[0]);
}

/// The tool is found where the list of processes names it, whatever the case of the letters;
/// else its task is told of, and without either there is no trace.
pub proof fn law_trace(listing: Seq<u8>, task: bool)
    ensures
        occurs(lowercase(lossy_text(listing)), "dwmblurglass.exe"@) ==> tool_trace(
            Some(listing),
            task,
        ) == Some("dwm-blur-tool"@),
        !occurs(lowercase(lossy_text(listing)), "dwmblurglass.exe"@) ==> tool_trace(
            Some(listing),
            task,
        ) == tool_trace(None, task),
        tool_trace(None, true) == Some("dwm-blur-task"@),
        tool_trace(None, false) is None,
{
}

/// A trace is told as found exactly where there is one, with its kind.
pub proof fn law_trace_is_told(kind: Option<Seq<char>>)
    ensures
        bool_member(trace_reply(kind), "detected"@) == Some(kind is Some),
        text_member(trace_reply(kind), "kind"@) == kind,
{
    lemma_keys();
    lemma_member_at(trace_reply(kind)->Obj_0, 0);
    lemma_member_at(trace_reply(kind)->Obj_0, 1);
}

/// A dialog goes by the name it has, cut off at forty characters; without one by its title,
/// and by a general word where neither is a text.
pub proof fn law_dialog_name(v: JsonV, t: Seq<char>)
    ensures
        member(v, "id"@) == Some(JsonV::Str(t)) ==> dialog_name(Some(v)) == (if t.len() <= 40 {
            t
        } else {
            t.take(40)
        }),
        member(v, "id"@) is None && member(v, "title"@) == Some(JsonV::Str(t)) ==> dialog_name(
            Some(v),
        ) == (if t.len() <= 40 {
            t
        } else {
            t.take(40)
        }),
        member(v, "id"@) is None && member(v, "title"@) is None ==> dialog_name(Some(v))
            == "modal"@,
        dialog_name(None) == "modal"@,
{
    reveal_strlit("modal");
    assert("modal"@.len() == 5);
}

/// An address is opened exactly where it begins with `https://` in whatever case, and then
/// as it is but for the white space around it; else the reason is told, and where it has
/// another scheme also which.
pub proof fn law_opened(url: Seq<char>)
    ensures
        opened_url(url) is Ok <==> "https://"@.is_prefix_of(ascii_lowercase(trimmed(url))),
        opened_url(url) matches Ok(u) ==> u == trimmed(url),
        opened_url(url) matches Err(r) ==> bool_member(r, "ok"@) == Some(false),
        opened_url(url) matches Err(r) ==> text_member(r, "reason"@) == Some(
            if trimmed(url).len() == 0 {
                "empty"@
            } else {
                "scheme"@
            },
        ),
        trimmed(url).len() > 0 ==> (opened_url(url) matches Err(r) ==> text_member(r, "protocol"@)
            == Some(pieces(trimmed(url), ':', ':')[0] + ":"@)),
{
    lemma_keys();
    reveal_strlit("https://");
    assert("https://"@.len() == 8);
    match opened_url(url) {
        Err(r) => {
            lemma_member_at(r->Obj_0, 0);
            lemma_member_at(r->Obj_0, 1);
            if trimmed(url).len() > 0 {
                lemma_member_at(r->Obj_0, 2);
            }
        },
        Ok(_) => {},
    }
}

/// The guide is told where it holds more than white space, wholly.
pub proof fn law_guide(text: Seq<char>)
    ensures
        bool_member(guide_reply(text), "success"@) == Some(trimmed(text).len() > 0),
        trimmed(text).len() > 0 ==> text_member(guide_reply(text), "content"@) == Some(text),
{
    lemma_keys();
    law_replies("使用说明文件不存在"@, JsonV::Null);
    if trimmed(text).len() > 0 {
        lemma_member_at(guide_reply(text)->Obj_0, 0);
        lemma_member_at(guide_reply(text)->Obj_0, 1);
    }
}

proof fn lemma_info_keys()
    ensures
        "name"@ != "version"@,
        "name"@ != "electron"@,
        "name"@ != "node"@,
        "name"@ != "chrome"@,
        "name"@ != "runtime"@,
        "name"@ != "platform"@,
        "name"@ != "arch"@,
        "name"@ != "osVersion"@,
        "name"@ != "osBuild"@,
        "name"@ != "fluentSupport"@,
        "name"@ != "micaEnabled"@,
        "name"@ != "materialEnabled"@,
        "name"@ != "isAdmin"@,
        "name"@ != "username"@,
        "name"@ != "homedir"@,
        "name"@ != "powerShell"@,
        "name"@ != "portable"@,
        "name"@ != "dataDir"@,
        "version"@ != "electron"@,
        "version"@ != "node"@,
        "version"@ != "chrome"@,
        "version"@ != "runtime"@,
        "version"@ != "platform"@,
        "version"@ != "arch"@,
        "version"@ != "osVersion"@,
        "version"@ != "osBuild"@,
        "version"@ != "fluentSupport"@,
        "version"@ != "micaEnabled"@,
        "version"@ != "materialEnabled"@,
        "version"@ != "isAdmin"@,
        "version"@ != "username"@,
        "version"@ != "homedir"@,
        "version"@ != "powerShell"@,
        "version"@ != "portable"@,
        "version"@ != "dataDir"@,
        "electron"@ != "node"@,
        "electron"@ != "chrome"@,
        "electron"@ != "runtime"@,
        "electron"@ != "platform"@,
        "electron"@ != "arch"@,
        "electron"@ != "osVersion"@,
        "electron"@ != "osBuild"@,
        "electron"@ != "fluentSupport"@,
        "electron"@ != "micaEnabled"@,
        "electron"@ != "materialEnabled"@,
        "electron"@ != "isAdmin"@,
        "electron"@ != "username"@,
        "electron"@ != "homedir"@,
        "electron"@ != "powerShell"@,
        "electron"@ != "portable"@,
        "electron"@ != "dataDir"@,
        "node"@ != "chrome"@,
        "node"@ != "runtime"@,
        "node"@ != "platform"@,
        "node"@ != "arch"@,
        "node"@ != "osVersion"@,
        "node"@ != "osBuild"@,
        "node"@ != "fluentSupport"@,
        "node"@ != "micaEnabled"@,
        "node"@ != "materialEnabled"@,
        "node"@ != "isAdmin"@,
        "node"@ != "username"@,
        "node"@ != "homedir"@,
        "node"@ != "powerShell"@,
        "node"@ != "portable"@,
        "node"@ != "dataDir"@,
        "chrome"@ != "runtime"@,
        "chrome"@ != "platform"@,
        "chrome"@ != "arch"@,
        "chrome"@ != "osVersion"@,
        "chrome"@ != "osBuild"@,
        "chrome"@ != "fluentSupport"@,
        "chrome"@ != "micaEnabled"@,
        "chrome"@ != "materialEnabled"@,
        "chrome"@ != "isAdmin"@,
        "chrome"@ != "username"@,
        "chrome"@ != "homedir"@,
        "chrome"@ != "powerShell"@,
        "chrome"@ != "portable"@,
        "chrome"@ != "dataDir"@,
        "runtime"@ != "platform"@,
        "runtime"@ != "arch"@,
        "runtime"@ != "osVersion"@,
        "runtime"@ != "osBuild"@,
        "runtime"@ != "fluentSupport"@,
        "runtime"@ != "micaEnabled"@,
        "runtime"@ != "materialEnabled"@,
        "runtime"@ != "isAdmin"@,
        "runtime"@ != "username"@,
        "runtime"@ != "homedir"@,
        "runtime"@ != "powerShell"@,
        "runtime"@ != "portable"@,
        "runtime"@ != "dataDir"@,
        "platform"@ != "arch"@,
        "platform"@ != "osVersion"@,
        "platform"@ != "osBuild"@,
        "platform"@ != "fluentSupport"@,
        "platform"@ != "micaEnabled"@,
        "platform"@ != "materialEnabled"@,
        "platform"@ != "isAdmin"@,
        "platform"@ != "username"@,
        "platform"@ != "homedir"@,
        "platform"@ != "powerShell"@,
        "platform"@ != "portable"@,
        "platform"@ != "dataDir"@,
        "arch"@ != "osVersion"@,
        "arch"@ != "osBuild"@,
        "arch"@ != "fluentSupport"@,
        "arch"@ != "micaEnabled"@,
        "arch"@ != "materialEnabled"@,
        "arch"@ != "isAdmin"@,
        "arch"@ != "username"@,
        "arch"@ != "homedir"@,
        "arch"@ != "powerShell"@,
        "arch"@ != "portable"@,
        "arch"@ != "dataDir"@,
        "osVersion"@ != "osBuild"@,
        "osVersion"@ != "fluentSupport"@,
        "osVersion"@ != "micaEnabled"@,
        "osVersion"@ != "materialEnabled"@,
        "osVersion"@ != "isAdmin"@,
        "osVersion"@ != "username"@,
        "osVersion"@ != "homedir"@,
        "osVersion"@ != "powerShell"@,
        "osVersion"@ != "portable"@,
        "osVersion"@ != "dataDir"@,
        "osBuild"@ != "fluentSupport"@,
        "osBuild"@ != "micaEnabled"@,
        "osBuild"@ != "materialEnabled"@,
        "osBuild"@ != "isAdmin"@,
        "osBuild"@ != "username"@,
        "osBuild"@ != "homedir"@,
        "osBuild"@ != "powerShell"@,
        "osBuild"@ != "portable"@,
        "osBuild"@ != "dataDir"@,
        "fluentSupport"@ != "micaEnabled"@,
        "fluentSupport"@ != "materialEnabled"@,
        "fluentSupport"@ != "isAdmin"@,
        "fluentSupport"@ != "username"@,
        "fluentSupport"@ != "homedir"@,
        "fluentSupport"@ != "powerShell"@,
        "fluentSupport"@ != "portable"@,
        "fluentSupport"@ != "dataDir"@,
        "micaEnabled"@ != "materialEnabled"@,
        "micaEnabled"@ != "isAdmin"@,
        "micaEnabled"@ != "username"@,
        "micaEnabled"@ != "homedir"@,
        "micaEnabled"@ != "powerShell"@,
        "micaEnabled"@ != "portable"@,
        "micaEnabled"@ != "dataDir"@,
        "materialEnabled"@ != "isAdmin"@,
        "materialEnabled"@ != "username"@,
        "materialEnabled"@ != "homedir"@,
        "materialEnabled"@ != "powerShell"@,
        "materialEnabled"@ != "portable"@,
        "materialEnabled"@ != "dataDir"@,
        "isAdmin"@ != "username"@,
        "isAdmin"@ != "homedir"@,
        "isAdmin"@ != "powerShell"@,
        "isAdmin"@ != "portable"@,
        "isAdmin"@ != "dataDir"@,
        "username"@ != "homedir"@,
        "username"@ != "powerShell"@,
        "username"@ != "portable"@,
        "username"@ != "dataDir"@,
        "homedir"@ != "powerShell"@,
        "homedir"@ != "portable"@,
        "homedir"@ != "dataDir"@,
        "powerShell"@ != "portable"@,
        "powerShell"@ != "dataDir"@,
        "portable"@ != "dataDir"@,
{
    reveal_strlit("name");
    reveal_strlit("version");
    reveal_strlit("electron");
    reveal_strlit("node");
    reveal_strlit("chrome");
    reveal_strlit("runtime");
    reveal_strlit("platform");
    reveal_strlit("arch");
    reveal_strlit("osVersion");
    reveal_strlit("osBuild");
    reveal_strlit("fluentSupport");
    reveal_strlit("micaEnabled");
    reveal_strlit("materialEnabled");
    reveal_strlit("isAdmin");
    reveal_strlit("username");
    reveal_strlit("homedir");
    reveal_strlit("powerShell");
    reveal_strlit("portable");
    reveal_strlit("dataDir");
    assert("name"@.len() == 4);
    assert("version"@.len() == 7);
    assert("electron"@.len() == 8);
    assert("node"@.len() == 4);
    assert("chrome"@.len() == 6);
    assert("runtime"@.len() == 7);
    assert("platform"@.len() == 8);
    assert("arch"@.len() == 4);
    assert("osVersion"@.len() == 9);
    assert("osBuild"@.len() == 7);
    assert("fluentSupport"@.len() == 13);
    assert("micaEnabled"@.len() == 11);
    assert("materialEnabled"@.len() == 15);
    assert("isAdmin"@.len() == 7);
    assert("username"@.len() == 8);
    assert("homedir"@.len() == 7);
    assert("powerShell"@.len() == 10);
    assert("portable"@.len() == 8);
    assert("dataDir"@.len() == 7);
    assert("name"@[1] != "node"@[1]);
    assert("name"@[0] != "arch"@[0]);
    assert("version"@[0] != "runtime"@[0]);
    assert("version"@[0] != "osBuild"@[0]);
    assert("version"@[0] != "isAdmin"@[0]);
    assert("version"@[0] != "homedir"@[0]);
    assert("version"@[0] != "dataDir"@[0]);
    assert("electron"@[0] != "platform"@[0]);
    assert("electron"@[0] != "username"@[0]);
    assert("electron"@[0] != "portable"@[0]);
    assert("node"@[0] != "arch"@[0]);
    assert("runtime"@[0] != "osBuild"@[0]);
    assert("runtime"@[0] != "isAdmin"@[0]);
    assert("runtime"@[0] != "homedir"@[0]);
    assert("runtime"@[0] != "dataDir"@[0]);
    assert("platform"@[0] != "username"@[0]);
    assert("platform"@[1] != "portable"@[1]);
    assert("osBuild"@[0] != "isAdmin"@[0]);
    assert("osBuild"@[0] != "homedir"@[0]);
    assert("osBuild"@[0] != "dataDir"@[0]);
    assert("isAdmin"@[0] != "homedir"@[0]);
    assert("isAdmin"@[0] != "dataDir"@[0]);
    assert("username"@[0] != "portable"@[0]);
    assert("homedir"@[0] != "dataDir"@[0]);
}

/// What is told of the application is what is known of it, each under its own name; its
/// window is said to shine through exactly where the system can do so.
pub proof fn law_info(a: AppFacts)
    ensures
        text_member(info_of(a), "version"@) == Some(a.version@),
        text_member(info_of(a), "arch"@) == Some(a.arch@),
        text_member(info_of(a), "osVersion"@) == Some(a.os_version@),
        member(info_of(a), "osBuild"@) == Some(JsonV::Num(dec(a.os_build as nat))),
        text_member(info_of(a), "fluentSupport"@) == Some(a.fluent@),
        bool_member(info_of(a), "micaEnabled"@) == Some(a.fluent@ != "none"@),
        bool_member(info_of(a), "materialEnabled"@) == Some(a.material),
        bool_member(info_of(a), "isAdmin"@) == Some(a.admin),
        text_member(info_of(a), "username"@) == Some(a.username@),
        text_member(info_of(a), "homedir"@) == Some(a.homedir@),
        bool_member(info_of(a), "portable"@) == Some(a.portable),
        text_member(info_of(a), "dataDir"@) == Some(a.data_dir@),
{
    lemma_info_keys();
    let m = info_of(a)->Obj_0;
    lemma_member_at(m, 1);
    lemma_member_at(m, 7);
    lemma_member_at(m, 8);
    lemma_member_at(m, 9);
    lemma_member_at(m, 10);
    lemma_member_at(m, 11);
    lemma_member_at(m, 12);
    lemma_member_at(m, 13);
    lemma_member_at(m, 14);
    lemma_member_at(m, 15);
    lemma_member_at(m, 17);
    lemma_member_at(m, 18);
}

/// A measurement that came to its end is told as a success with what it gave; one that
/// failed or broke off is told as no success.
pub proof fn law_measured(told: Told, broken: Seq<char>)
    ensures
        bool_member(measured_reply(told, broken), "success"@) == Some(told is Value),
        told matches Told::Value(v) ==> member(measured_reply(told, broken), "data"@) == Some(
            v.view(),
        ),
        told matches Told::Failed(e) ==> text_member(measured_reply(told, broken), "message"@)
            == Some("原生测速失败: "@ + e@),
        told matches Told::Broken(e) ==> text_member(measured_reply(told, broken), "message"@)
            == Some(broken + e@),
{
    lemma_keys();
    match told {
        Told::Value(_) => {
            lemma_member_at(measured_reply(told, broken)->Obj_0, 0);
            lemma_member_at(measured_reply(told, broken)->Obj_0, 1);
        },
        Told::Failed(e) => {
            law_replies("原生测速失败: "@ + e@, JsonV::Null);
        },
        Told::Broken(e) => {
            law_replies(broken + e@, JsonV::Null);
        },
    }
}

/// What the machine consists of is told where it was found out; else why not.
pub proof fn law_device(told: Told)
    ensures
        bool_member(device_reply(told), "success"@) == Some(told is Value),
        told matches Told::Value(v) ==> member(device_reply(told), "data"@) == Some(v.view()),
        told matches Told::Failed(e) ==> text_member(device_reply(told), "message"@) == Some(
            "原生采集失败: "@ + e@,
        ),
        told matches Told::Broken(e) ==> text_member(device_reply(told), "message"@) == Some(
            "采集任务异常: "@ + e@,
        ),
{
    match told {
        Told::Value(v) => {
            law_replies("原生采集失败: "@, v.view());
        },
        Told::Failed(e) => {
            law_replies("原生采集失败: "@ + e@, JsonV::Null);
        },
        Told::Broken(e) => {
            law_replies("采集任务异常: "@ + e@, JsonV::Null);
        },
    }
}

/// The log is given away exactly where a place was chosen and copying it there did not
/// fail; then that place is told.
pub proof fn law_export(chosen: Option<Seq<char>>, failure: Option<Seq<char>>)
    ensures
        bool_member(export_reply(chosen, failure), "success"@) == Some(
            chosen is Some && failure is None,
        ),
        failure is None ==> (chosen matches Some(p) ==> text_member(
            export_reply(chosen, failure),
            "path"@,
        ) == Some(p)),
        chosen is Some ==> (failure matches Some(e) ==> text_member(
            export_reply(chosen, failure),
            "message"@,
        ) == Some(e)),
{
    lemma_keys();
    law_replies("已取消"@, JsonV::Null);
    match failure {
        Some(e) => {
            law_replies(e, JsonV::Null);
        },
        None => {
            if chosen is Some {
                lemma_member_at(export_reply(chosen, failure)->Obj_0, 0);
                lemma_member_at(export_reply(chosen, failure)->Obj_0, 1);
            }
        },
    }
}

/// What a part of the program came to is told as a success with its value, else with why.
pub proof fn law_engine(told: Result<JsonV, Seq<char>>, failed: Seq<char>)
    ensures
        bool_member(engine_told(told, failed), "success"@) == Some(told is Ok),
        told matches Ok(d) ==> member(engine_told(told, failed), "data"@) == Some(d),
        told matches Err(e) ==> text_member(engine_told(told, failed), "message"@) == Some(
            failed + ": "@ + e,
        ),
{
    lemma_keys();
    match told {
        Ok(_) => {
            lemma_member_at(engine_told(told, failed)->Obj_0, 0);
            lemma_member_at(engine_told(told, failed)->Obj_0, 1);
        },
        Err(e) => {
            law_replies(failed + ": "@ + e, JsonV::Null);
        },
    }
}

/// What a process said of its failure is passed on without the white space around it, and
/// the given words stand in its place where it said nothing.
pub proof fn law_complaint(stderr: Seq<char>, other: Seq<char>)
    ensures
        trimmed(stderr).len() > 0 ==> complaint(stderr, other) == trimmed(stderr),
        trimmed(stderr).len() == 0 ==> complaint(stderr, other) == other,
{
}

} // verus!
