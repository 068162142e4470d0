//! How fast the network is: how long it is measured, and how it is reported.

use crate::commands::fonts::{held_number, hold_number};
use crate::commands::reply::{refuse, refused, Told};
use crate::json::{Json, JsonV};
use crate::text::cat;
use crate::value::{jtext, Fields};
use vstd::prelude::*;

verus! {

/// How many seconds the throughput is measured: as many as are asked for, ten where that is
/// no number or zero, at least one and at most sixty.
pub open spec fn seconds_for(duration: Option<JsonV>) -> Seq<char> {
    held_number(
        match duration {
            Some(JsonV::Num(_)) => duration,
            _ => None,
        },
        10,
        1,
        60,
    )
}

/// How many seconds the throughput is measured.
pub fn throughput_seconds(duration: Option<&Json>) -> (out: Json)
    ensures
        out.view() == JsonV::Num(
            seconds_for(
                match duration {
                    Some(j) => Some(j.view()),
                    None => None,
                },
            ),
        ),
{
    match duration {
        Some(Json::Num(_)) => hold_number(duration, 10, 1, 60),
        _ => hold_number(None, 10, 1, 60),
    }
}

/// The reply to a measurement, where `broken` tells what came to grief.
pub open spec fn measured_reply(told: Told, broken: Seq<char>) -> JsonV {
    match told {
        Told::Value(v) => JsonV::Obj(
            seq![
                ("success"@, JsonV::Bool(true)),
                ("data"@, v.view()),
                ("engine"@, JsonV::Str("rust"@)),
            ],
        ),
        Told::Failed(e) => refused("原生测速失败: "@ + e@),
        Told::Broken(e) => refused(broken + e@),
    }
}

fn reply_measured(told: Told, broken: &str) -> (out: Json)
    ensures
        out.view() == measured_reply(told, broken@),
{
    match told {
        Told::Value(v) => {
            let ghost data = v.view();
            let f: Fields = Fields::new().with("success", Json::Bool(true)).with("data", v).with(
                "engine",
                jtext("rust"),
            );
            assert(f.view() =~= seq![
                ("success"@, JsonV::Bool(true)),
                ("data"@, data),
                ("engine"@, JsonV::Str("rust"@)),
            ]);
            f.object()
        },
        Told::Failed(e) => refuse(cat("原生测速失败: ", e.as_str()).as_str()),
        Told::Broken(e) => refuse(cat(broken, e.as_str()).as_str()),
    }
}

/// The reply to the question how long an answer takes.
pub fn netspeed_ping(told: Told) -> (out: Json)
    ensures
        out.view() == measured_reply(told, "Ping 任务异常: "@),
{
    reply_measured(told, "Ping 任务异常: ")
}

/// The reply to the question how much goes through.
pub fn netspeed_throughput(told: Told) -> (out: Json)
    ensures
        out.view() == measured_reply(told, "测速任务异常: "@),
{
    reply_measured(told, "测速任务异常: ")
}

} // verus!
