//! What the application says of itself, and which addresses it opens.

use crate::commands::reply::{refuse, refused};
use crate::json::{Json, JsonV};
use crate::text::{
    ascii_lowercase, cat, pieces, same, split, starts_with, texts, to_ascii_lower, trim, trimmed,
};
use crate::value::{jcount, jtext, Fields};
use vstd::prelude::*;

verus! {

// ----------------------------------------------------------------------------- an address

/// The reply that an address is not opened.
pub open spec fn not_opened(reason: Seq<char>) -> JsonV {
    JsonV::Obj(seq![("ok"@, JsonV::Bool(false)), ("reason"@, JsonV::Str(reason))])
}

/// The reply that an address is not opened, with more on it.
pub open spec fn not_opened_for(reason: Seq<char>, key: Seq<char>, what: Seq<char>) -> JsonV {
    JsonV::Obj(
        seq![
            ("ok"@, JsonV::Bool(false)),
            ("reason"@, JsonV::Str(reason)),
            (key, JsonV::Str(what)),
        ],
    )
}

/// The address that is opened; otherwise the reply. Only `https` is opened.
pub open spec fn opened_url(url: Seq<char>) -> Result<Seq<char>, JsonV> {
    let u = trimmed(url);
    if u.len() == 0 {
        Err(not_opened("empty"@))
    } else if !"https://"@.is_prefix_of(ascii_lowercase(u)) {
        Err(not_opened_for("scheme"@, "protocol"@, pieces(u, ':', ':')[0] + ":"@))
    } else {
        Ok(u)
    }
}

fn refuse_url(reason: &str, key: &str, what: &str) -> (out: Json)
    ensures
        out.view() == not_opened_for(reason@, key@, what@),
{
    let f: Fields = Fields::new().with("ok", Json::Bool(false)).with("reason", jtext(reason)).with(
        key,
        jtext(what),
    );
    assert(f.view() =~= not_opened_for(reason@, key@, what@)->Obj_0);
    f.object()
}

proof fn lemma_some_piece(s: Seq<char>, a: char, b: char)
    ensures
        pieces(s, a, b).len() > 0,
    decreases s.len(),
{
    if s.len() > 0 {
        lemma_some_piece(s.drop_last(), a, b);
    }
}

/// The address that is opened; otherwise the reply.
pub fn external_gate(url: &str) -> (out: Result<String, Json>)
    ensures
        match out {
            Ok(u) => opened_url(url@) == Ok::<Seq<char>, JsonV>(u@),
            Err(e) => opened_url(url@) == Err::<Seq<char>, JsonV>(e.view()),
        },
{
    let u: String = trim(url);
    if u.as_str().unicode_len() == 0 {
        let f: Fields = Fields::new().with("ok", Json::Bool(false)).with("reason", jtext("empty"));
        assert(f.view() =~= not_opened("empty"@)->Obj_0);
        return Err(f.object());
    }
    if !starts_with(to_ascii_lower(u.as_str()).as_str(), "https://") {
        let parts: Vec<String> = split(u.as_str(), ':', ':');
        proof {
            lemma_some_piece(u@, ':', ':');
        }
        assert(texts(parts@).len() == parts@.len());
        assert(texts(parts@)[0] == parts@[0]@);
        let p: String = cat(parts[0].as_str(), ":");
        return Err(refuse_url("scheme", "protocol", p.as_str()));
    }
    Ok(u)
}

/// The reply to an address that was handed to the system.
pub fn external_reply(opened: Result<(), String>) -> (out: Json)
    ensures
        out.view() == (match opened {
            Ok(_) => JsonV::Obj(seq![("ok"@, JsonV::Bool(true))]),
            Err(e) => not_opened_for("open-failed"@, "message"@, e@),
        }),
{
    match opened {
        Ok(_) => {
            let f: Fields = Fields::new().with("ok", Json::Bool(true));
            assert(f.view() =~= seq![("ok"@, JsonV::Bool(true))]);
            f.object()
        },
        Err(e) => refuse_url("open-failed", "message", e.as_str()),
    }
}

/// The reply that a window may not ask for an address.
pub fn external_forbidden(why: &str) -> (out: Json)
    ensures
        out.view() == not_opened_for("forbidden"@, "message"@, why@),
{
    refuse_url("forbidden", "message", why)
}

/// Why the system did not open an address: it tells of success by a number above 32.
pub fn shell_outcome(told: u64) -> (out: Result<(), String>)
    ensures
        match out {
            Ok(_) => told > 32,
            Err(m) => told <= 32 && m@ == "ShellExecute 返回 "@ + crate::text::dec(told as nat),
        },
{
    if told > 32 {
        Ok(())
    } else {
        let n: String = crate::text::decimal(told);
        Err(cat("ShellExecute 返回 ", n.as_str()))
    }
}

// ------------------------------------------------------------------------------- the guide

/// The reply to a question for the guide.
pub open spec fn guide_reply(text: Seq<char>) -> JsonV {
    if trimmed(text).len() == 0 {
        refused("使用说明文件不存在"@)
    } else {
        JsonV::Obj(seq![("success"@, JsonV::Bool(true)), ("content"@, JsonV::Str(text))])
    }
}

/// The reply to a question for the guide.
pub fn read_usage(text: &str) -> (out: Json)
    ensures
        out.view() == guide_reply(text@),
{
    if trim(text).as_str().unicode_len() == 0 {
        return refuse("使用说明文件不存在");
    }
    let f: Fields = Fields::new().with("success", Json::Bool(true)).with("content", jtext(text));
    assert(f.view() =~= guide_reply(text@)->Obj_0);
    f.object()
}

// --------------------------------------------------------------------------- the first frame

/// Whether the first frame of a window brings the main window up: only its own does.
pub fn first_paint(label: &str) -> (out: bool)
    ensures
        out == (label@ == "main"@),
{
    same(label, "main")
}

// ------------------------------------------------------------------------- the application

/// What the application says of itself.
#[derive(Debug)]
pub struct AppFacts {
    pub version: String,
    pub arch: String,
    pub os_version: String,
    pub os_build: u64,
    pub fluent: String,
    pub material: bool,
    pub admin: bool,
    pub username: String,
    pub homedir: String,
    pub portable: bool,
    pub data_dir: String,
}

/// The reply to a question for what the application is.
pub open spec fn info_of(a: AppFacts) -> JsonV {
    JsonV::Obj(
        seq![
            ("name"@, JsonV::Str("Trim"@)),
            ("version"@, JsonV::Str(a.version@)),
            ("electron"@, JsonV::Null),
            ("node"@, JsonV::Null),
            ("chrome"@, JsonV::Null),
            ("runtime"@, JsonV::Str("tauri"@)),
            ("platform"@, JsonV::Str("win32"@)),
            ("arch"@, JsonV::Str(a.arch@)),
            ("osVersion"@, JsonV::Str(a.os_version@)),
            ("osBuild"@, JsonV::Num(crate::text::dec(a.os_build as nat))),
            ("fluentSupport"@, JsonV::Str(a.fluent@)),
            ("micaEnabled"@, JsonV::Bool(a.fluent@ != "none"@)),
            ("materialEnabled"@, JsonV::Bool(a.material)),
            ("isAdmin"@, JsonV::Bool(a.admin)),
            ("username"@, JsonV::Str(a.username@)),
            ("homedir"@, JsonV::Str(a.homedir@)),
            ("powerShell"@, JsonV::Str("PowerShell 7"@)),
            ("portable"@, JsonV::Bool(a.portable)),
            ("dataDir"@, JsonV::Str(a.data_dir@)),
        ],
    )
}

/// The reply to a question for what the application is.
pub fn app_info(a: &AppFacts) -> (out: Json)
    ensures
        out.view() == info_of(*a),
{
    let f: Fields = Fields::new().with("name", jtext("Trim")).with(
        "version",
        jtext(a.version.as_str()),
    ).with("electron", Json::Null).with("node", Json::Null).with("chrome", Json::Null).with(
        "runtime",
        jtext("tauri"),
    ).with("platform", jtext("win32")).with("arch", jtext(a.arch.as_str())).with(
        "osVersion",
        jtext(a.os_version.as_str()),
    ).with("osBuild", jcount(a.os_build)).with("fluentSupport", jtext(a.fluent.as_str())).with(
        "micaEnabled",
        Json::Bool(!same(a.fluent.as_str(), "none")),
    ).with("materialEnabled", Json::Bool(a.material)).with("isAdmin", Json::Bool(a.admin)).with(
        "username",
        jtext(a.username.as_str()),
    ).with("homedir", jtext(a.homedir.as_str())).with(
        "powerShell",
        jtext("PowerShell 7"),
    ).with("portable", Json::Bool(a.portable)).with("dataDir", jtext(a.data_dir.as_str()));
    assert(f.view() =~= info_of(*a)->Obj_0);
    f.object()
}

/// An address that does not start with `https://` is never opened.
pub proof fn law_only_https(url: Seq<char>)
    requires
        opened_url(url) is Ok,
    ensures
        opened_url(url)->Ok_0 == trimmed(url),
        "https://"@.is_prefix_of(ascii_lowercase(trimmed(url))),
{
}

} // verus!
