//! What the machine consists of, as it is reported.

use crate::commands::reply::{grant, granted, refuse, refused, Told};
use crate::json::{Json, JsonV};
use crate::text::cat;
use vstd::prelude::*;

verus! {

/// The reply to the question what the machine consists of.
pub open spec fn device_reply(told: Told) -> JsonV {
    match told {
        Told::Value(v) => granted(v.view()),
        Told::Failed(e) => refused("原生采集失败: "@ + e@),
        Told::Broken(e) => refused("采集任务异常: "@ + e@),
    }
}

/// The reply to the question what the machine consists of.
pub fn device_scan(told: Told) -> (out: Json)
    ensures
        out.view() == device_reply(told),
{
    match told {
        Told::Value(v) => grant(v),
        Told::Failed(e) => refuse(cat("原生采集失败: ", e.as_str()).as_str()),
        Told::Broken(e) => refuse(cat("采集任务异常: ", e.as_str()).as_str()),
    }
}

} // verus!
