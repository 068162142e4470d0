//! The replies that commands give.

use crate::json::{Json, JsonV};
use crate::value::{jarray, jtext, Fields};
use vstd::prelude::*;

verus! {

/// What came of work that was handed out: a value, why it failed, or why it came to no end.
#[derive(Debug)]
pub enum Told {
    Value(Json),
    Failed(String),
    Broken(String),
}

/// The reply that something was not done, and why.
pub open spec fn refused(message: Seq<char>) -> JsonV {
    JsonV::Obj(seq![("success"@, JsonV::Bool(false)), ("message"@, JsonV::Str(message))])
}

/// The reply that something was not done, and why.
pub fn refuse(message: &str) -> (out: Json)
    ensures
        out.view() == refused(message@),
{
    let f: Fields = Fields::new().with("success", Json::Bool(false)).with(
        "message",
        jtext(message),
    );
    assert(f.view() =~= seq![("success"@, JsonV::Bool(false)), ("message"@, JsonV::Str(message@))]);
    f.object()
}

/// The reply that something was not done, with an empty list of data.
pub open spec fn refused_empty(message: Seq<char>) -> JsonV {
    JsonV::Obj(
        seq![
            ("success"@, JsonV::Bool(false)),
            ("message"@, JsonV::Str(message)),
            ("data"@, JsonV::Arr(Seq::empty())),
        ],
    )
}

/// The reply that something was not done, with an empty list of data.
pub fn refuse_empty(message: &str) -> (out: Json)
    ensures
        out.view() == refused_empty(message@),
{
    let none: Vec<Json> = Vec::new();
    assert(crate::json::values(none@) =~= Seq::empty());
    let f: Fields = Fields::new().with("success", Json::Bool(false)).with(
        "message",
        jtext(message),
    ).with("data", jarray(none));
    assert(f.view() =~= seq![
        ("success"@, JsonV::Bool(false)),
        ("message"@, JsonV::Str(message@)),
        ("data"@, JsonV::Arr(Seq::empty())),
    ]);
    f.object()
}

/// The reply that something was done, with what came of it.
pub open spec fn granted(data: JsonV) -> JsonV {
    JsonV::Obj(seq![("success"@, JsonV::Bool(true)), ("data"@, data)])
}

/// The reply that something was done, with what came of it.
pub fn grant(data: Json) -> (out: Json)
    ensures
        out.view() == granted(data.view()),
{
    let f: Fields = Fields::new().with("success", Json::Bool(true)).with("data", data);
    assert(f.view() =~= seq![("success"@, JsonV::Bool(true)), ("data"@, data.view())]);
    f.object()
}

/// The reply that something was done.
pub open spec fn done() -> JsonV {
    JsonV::Obj(seq![("success"@, JsonV::Bool(true))])
}

/// The reply that something was done.
pub fn finish() -> (out: Json)
    ensures
        out.view() == done(),
{
    let f: Fields = Fields::new().with("success", Json::Bool(true));
    assert(f.view() =~= seq![("success"@, JsonV::Bool(true))]);
    f.object()
}

/// The reply to a command that ran as a process: what it printed on its error
/// stream, or the given words where that is blank.
pub open spec fn complaint(stderr: Seq<char>, other: Seq<char>) -> Seq<char> {
    if crate::text::trimmed(stderr).len() == 0 {
        other
    } else {
        crate::text::trimmed(stderr)
    }
}

/// What a process printed on its error stream, or the given words.
pub fn complain(stderr: &str, other: &str) -> (out: String)
    ensures
        out@ == complaint(stderr@, other@),
{
    let t: String = crate::text::trim(stderr);
    if t.as_str().unicode_len() == 0 {
        other.to_owned()
    } else {
        t
    }
}

/// The reply to something that was done in the program itself.
pub open spec fn engine_told(told: Result<JsonV, Seq<char>>, failed: Seq<char>) -> JsonV {
    match told {
        Ok(d) => JsonV::Obj(
            seq![
                ("success"@, JsonV::Bool(true)),
                ("data"@, d),
                ("engine"@, JsonV::Str("rust"@)),
            ],
        ),
        Err(e) => refused(failed + ": "@ + e),
    }
}

/// The reply to something that was done in the program itself.
pub fn engine_reply(told: Result<Json, String>, failed: &str) -> (out: Json)
    ensures
        out.view() == engine_told(
            match told {
                Ok(d) => Ok(d.view()),
                Err(e) => Err(e@),
            },
            failed@,
        ),
{
    match told {
        Ok(d) => {
            let ghost dv = d.view();
            let f: Fields = Fields::new().with("success", Json::Bool(true)).with("data", d).with(
                "engine",
                jtext("rust"),
            );
            assert(f.view() =~= seq![
                ("success"@, JsonV::Bool(true)),
                ("data"@, dv),
                ("engine"@, JsonV::Str("rust"@)),
            ]);
            f.object()
        },
        Err(e) => refuse(crate::text::cat3(failed, ": ", e.as_str()).as_str()),
    }
}

} // verus!
