//! The log that is given away.

use crate::commands::reply::{refuse, refused};
use crate::json::{Json, JsonV};
use crate::text::{cat3, dec, decimal};
use crate::value::{jtext, Fields};
use vstd::prelude::*;

verus! {

/// The name that is offered for a log that is given away at a moment.
pub fn export_name(now: u64) -> (out: String)
    ensures
        out@ == "Trim-log-"@ + dec(now as nat) + ".txt"@,
{
    cat3("Trim-log-", decimal(now).as_str(), ".txt")
}

/// The reply to giving the log away: to the path that was chosen, if one was, and with what
/// came of copying it there.
pub open spec fn export_reply(chosen: Option<Seq<char>>, failure: Option<Seq<char>>) -> JsonV {
    match chosen {
        None => refused("已取消"@),
        Some(p) => match failure {
            Some(e) => refused(e),
            None => JsonV::Obj(
                seq![("success"@, JsonV::Bool(true)), ("path"@, JsonV::Str(p))],
            ),
        },
    }
}

/// The reply to giving the log away.
pub fn log_export(chosen: Option<&str>, failure: Option<&str>) -> (out: Json)
    ensures
        out.view() == export_reply(
            match chosen {
                Some(p) => Some(p@),
                None => None,
            },
            match failure {
                Some(e) => Some(e@),
                None => None,
            },
        ),
{
    match chosen {
        None => refuse("已取消"),
        Some(p) => match failure {
            Some(e) => refuse(e),
            None => {
                let f: Fields = Fields::new().with("success", Json::Bool(true)).with(
                    "path",
                    jtext(p),
                );
                assert(f.view() =~= seq![
                    ("success"@, JsonV::Bool(true)),
                    ("path"@, JsonV::Str(p@)),
                ]);
                f.object()
            },
        },
    }
}

} // verus!
