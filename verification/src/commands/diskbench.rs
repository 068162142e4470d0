//! Measuring a disk: where it may be done, with which settings, and what is answered.

use crate::commands::memory::{js_int, whole_in};
use crate::commands::reply::{refuse, refused};
use crate::json::{member, text_member, Json, JsonV};
use crate::protect::{bare, strip_prefix};
use crate::text::{
    cat, decimal, dec, lowercase, same, starts_with, texts, trim, trim_trailing, trimmed,
    without_trailing,
};
use crate::value::{bool_member, json_told, jtext, try_json, Fields};
use vstd::prelude::*;

verus! {

/// Whether a path is a directory or lies in it.
pub open spec fn lies_in(target: Seq<char>, root: Seq<char>) -> bool {
    let t = lowercase(target);
    let r = without_trailing(lowercase(root), '\\', '\\');
    t == r || (r + "\\"@).is_prefix_of(t)
}

/// Whether a path lies in one of the directories that belong to the user.
pub open spec fn is_allowed(target: Seq<char>, roots: Seq<Seq<char>>) -> bool {
    exists|i: int| 0 <= i < roots.len() && lies_in(target, #[trigger] roots[i])
}

/// Whether a path lies in one of the directories that belong to the user.
pub fn is_diskbench_allowed_path(target: &str, roots: &Vec<String>) -> (out: bool)
    ensures
        out == is_allowed(target@, texts(roots@)),
{
    let ghost rv = texts(roots@);
    assert(rv.len() == roots@.len());
    let t: String = target.to_lowercase();
    let mut i: usize = 0;
    while i < roots.len()
        invariant
            i <= roots@.len(),
            rv == texts(roots@),
            rv.len() == roots@.len(),
            t@ == lowercase(target@),
            forall|k: int| 0 <= k < i ==> !lies_in(target@, #[trigger] rv[k]),
        decreases roots@.len() - i,
    {
        assert(rv[i as int] == roots@[i as int]@);
        let low: String = roots[i].to_lowercase();
        let r: String = trim_trailing(low.as_str(), '\\', '\\');
        if same(t.as_str(), r.as_str()) || starts_with(
            t.as_str(),
            cat(r.as_str(), "\\").as_str(),
        ) {
            return true;
        }
        i += 1;
    }
    false
}

/// A path without the mark of a long one.
pub fn strip_verbatim(p: &str) -> (out: String)
    ensures
        out@ == bare(p@),
{
    strip_prefix(p)
}

/// What stands at the place that is to be measured.
#[derive(Debug, Clone, Copy, PartialEq, Eq, Structural)]
pub enum Place {
    Missing,
    Unread,
    PlainDir,
    Other,
}

/// How much must be free.
pub const DISKBENCH_MIN_FREE_BYTES: u64 = 1_073_741_824;

/// The path that is asked for.
pub open spec fn asked_path(opts: JsonV) -> Seq<char> {
    match text_member(opts, "path"@) {
        Some(p) => trimmed(p),
        None => trimmed(Seq::empty()),
    }
}

/// The path that is asked for.
pub fn requested_path(opts: &Json) -> (out: String)
    ensures
        out@ == asked_path(opts.view()),
{
    match opts.text("path") {
        Some(p) => trim(p),
        None => {
            let none: String = String::new();
            assert(none@ =~= Seq::empty());
            trim(none.as_str())
        },
    }
}

/// Why nothing is measured.
pub open spec fn run_refusal(
    asked: Seq<char>,
    place: Place,
    resolved: Seq<char>,
    roots: Seq<Seq<char>>,
    free: Option<u64>,
) -> Option<Seq<char>> {
    if asked.len() == 0 || place == Place::Missing {
        Some("测速路径不存在"@)
    } else if place == Place::Unread {
        Some("测速路径不可访问"@)
    } else if place == Place::Other {
        Some("测速路径必须是普通目录"@)
    } else if !is_allowed(resolved, roots) {
        Some("测速路径受限，请选择用户目录（如下载、文档、桌面）或临时目录下的路径"@)
    } else if free matches Some(n) && n < DISKBENCH_MIN_FREE_BYTES {
        Some("目标磁盘剩余空间不足，请选择空间更大的盘符（需至少约 1 GB）"@)
    } else {
        None
    }
}

/// Whether a disk is measured: `resolved` is the path as the system writes it, `free` how
/// much is free where that is known; otherwise the reply.
pub fn run_gate(
    asked: &str,
    place: Place,
    resolved: &str,
    roots: &Vec<String>,
    free: Option<u64>,
) -> (out: Result<(), Json>)
    ensures
        ({
            let r = run_refusal(asked@, place, resolved@, texts(roots@), free);
            match out {
                Ok(_) => r is None,
                Err(e) => r matches Some(m) && e.view() == refused(m),
            }
        }),
{
    if asked.unicode_len() == 0 {
        return Err(refuse("测速路径不存在"));
    }
    match place {
        Place::Missing => {
            return Err(refuse("测速路径不存在"));
        },
        Place::Unread => {
            return Err(refuse("测速路径不可访问"));
        },
        Place::Other => {
            return Err(refuse("测速路径必须是普通目录"));
        },
        Place::PlainDir => {},
    }
    if !is_diskbench_allowed_path(resolved, roots) {
        return Err(
            refuse("测速路径受限，请选择用户目录（如下载、文档、桌面）或临时目录下的路径"),
        );
    }
    if let Some(n) = free {
        if n < DISKBENCH_MIN_FREE_BYTES {
            return Err(
                refuse("目标磁盘剩余空间不足，请选择空间更大的盘符（需至少约 1 GB）"),
            );
        }
    }
    Ok(())
}

/// A number that is one of three, else another.
pub open spec fn picked(v: Option<JsonV>, a: int, b: int, c: int, other: int) -> int {
    match v {
        Some(j) => match whole_in(j) {
            Some(n) => if n == a || n == b || n == c {
                n
            } else {
                other
            },
            None => other,
        },
        None => other,
    }
}

fn pick(v: Option<&Json>, a: u64, b: u64, c: u64, other: u64) -> (out: u64)
    requires
        0 < a <= 0x7fff_ffff,
        0 < b <= 0x7fff_ffff,
        0 < c <= 0x7fff_ffff,
    ensures
        out == picked(
            match v {
                Some(j) => Some(j.view()),
                None => None,
            },
            a as int,
            b as int,
            c as int,
            other as int,
        ),
{
    match v {
        Some(j) => match js_int(j) {
            Some(n) => if n == a as i64 || n == b as i64 || n == c as i64 {
                n as u64
            } else {
                other
            },
            None => other,
        },
        None => other,
    }
}

/// The settings of a measurement.
#[derive(Debug, Clone, Copy, PartialEq, Eq, Structural)]
pub struct BenchOptions {
    pub block: u64,
    pub depth: u64,
    pub threads: u64,
    pub seconds: u64,
    pub buffered: bool,
}

/// The settings of a measurement: each is one of a few, else the usual one.
pub open spec fn chosen_options(opts: JsonV) -> BenchOptions {
    BenchOptions {
        block: picked(
            member(opts, "blockSize"@),
            4096,
            65536,
            1048576,
            1048576,
        ) as u64,
        depth: picked(member(opts, "queueDepth"@), 1, 8, 32, 1) as u64,
        threads: picked(member(opts, "threads"@), 1, 4, 8, 1) as u64,
        seconds: picked(member(opts, "duration"@), 4, 8, 16, 8) as u64,
        buffered: text_member(opts, "ioMode"@) == Some("buf"@),
    }
}

/// The settings of a measurement.
pub fn bench_options(opts: &Json) -> (out: BenchOptions)
    ensures
        out == chosen_options(opts.view()),
        out.seconds == 4 || out.seconds == 8 || out.seconds == 16,
{
    BenchOptions {
        block: pick(opts.get("blockSize"), 4096, 65536, 1048576, 1048576),
        depth: pick(opts.get("queueDepth"), 1, 8, 32, 1),
        threads: pick(opts.get("threads"), 1, 4, 8, 1),
        seconds: pick(opts.get("duration"), 4, 8, 16, 8),
        buffered: match opts.text("ioMode") {
            Some(m) => same(m, "buf"),
            None => false,
        },
    }
}

/// How long a measurement may take, in milliseconds.
pub fn bench_timeout(o: &BenchOptions) -> (out: u64)
    requires
        o.seconds <= 16,
    ensures
        out == o.seconds * 4000 + 60_000,
{
    o.seconds * 1000 * 4 + 60_000
}

/// The arguments of a measurement.
pub open spec fn bench_words(path: Seq<char>, o: BenchOptions) -> Seq<Seq<char>> {
    seq![
        "diskbench"@,
        "--path"@,
        path,
        "--block-bytes"@,
        dec(o.block as nat),
        "--duration"@,
        dec(o.seconds as nat),
        "--qd"@,
        dec(o.depth as nat),
        "--threads"@,
        dec(o.threads as nat),
        "--mode"@,
        if o.buffered {
            "buf"@
        } else {
            "nobuf"@
        },
    ]
}

/// The arguments of a measurement.
pub fn bench_args(path: &str, o: &BenchOptions) -> (out: Vec<String>)
    ensures
        texts(out@) == bench_words(path@, *o),
{
    let mut v: Vec<String> = Vec::new();
    v.push("diskbench".to_owned());
    v.push("--path".to_owned());
    v.push(path.to_owned());
    v.push("--block-bytes".to_owned());
    v.push(decimal(o.block));
    v.push("--duration".to_owned());
    v.push(decimal(o.seconds));
    v.push("--qd".to_owned());
    v.push(decimal(o.depth));
    v.push("--threads".to_owned());
    v.push(decimal(o.threads));
    v.push("--mode".to_owned());
    v.push(
        if o.buffered {
            "buf".to_owned()
        } else {
            "nobuf".to_owned()
        },
    );
    assert(texts(v@) =~= bench_words(path@, *o));
    v
}

/// The reply to a measurement, and whether what it has left behind is cleared away. What
/// did not come to an end is cleared away.
pub open spec fn bench_reply(told: Option<Seq<char>>) -> (JsonV, bool) {
    match told {
        None => (refused("磁盘测速超时（原生引擎）"@), true),
        Some(t) => match json_told(trimmed(t)) {
            Err(m) => (refused("磁盘测速结果解析失败: "@ + m), true),
            Ok(d) => {
                let measured = bool_member(d, "measured"@) == Some(true);
                (
                    JsonV::Obj(
                        seq![
                            ("success"@, JsonV::Bool(measured)),
                            ("data"@, d),
                            ("engine"@, JsonV::Str("rust"@)),
                        ],
                    ),
                    !measured,
                )
            },
        },
    }
}

/// The reply to a measurement, and whether what it has left behind is cleared away; there
/// is no text where it took too long.
pub fn bench_result(told: Option<&str>) -> (out: (Json, bool))
    ensures
        ({
            let r = bench_reply(
                match told {
                    Some(t) => Some(t@),
                    None => None,
                },
            );
            out.0.view() == r.0 && out.1 == r.1
        }),
{
    let t: &str = match told {
        Some(t) => t,
        None => {
            return (refuse("磁盘测速超时（原生引擎）"), true);
        },
    };
    let d: Json = match try_json(trim(t).as_str()) {
        Ok(d) => d,
        Err(m) => {
            return (refuse(cat("磁盘测速结果解析失败: ", m.as_str()).as_str()), true);
        },
    };
    let measured: bool = match d.flag("measured") {
        Some(b) => b,
        None => false,
    };
    let ghost dv = d.view();
    let f: Fields = Fields::new().with("success", Json::Bool(measured)).with("data", d).with(
        "engine",
        jtext("rust"),
    );
    assert(f.view() =~= seq![
        ("success"@, JsonV::Bool(measured)),
        ("data"@, dv),
        ("engine"@, JsonV::Str("rust"@)),
    ]);
    (f.object(), !measured)
}

/// Whatever is asked for, a measurement runs with settings that are allowed.
pub proof fn law_options_are_allowed(opts: JsonV)
    ensures
        ({
            let o = chosen_options(opts);
            &&& o.block == 4096 || o.block == 65536 || o.block == 1048576
            &&& o.depth == 1 || o.depth == 8 || o.depth == 32
            &&& o.threads == 1 || o.threads == 4 || o.threads == 8
            &&& o.seconds == 4 || o.seconds == 8 || o.seconds == 16
        }),
{
}

/// Outside the directories of the user nothing is measured.
pub proof fn law_outside_is_refused(
    asked: Seq<char>,
    place: Place,
    resolved: Seq<char>,
    roots: Seq<Seq<char>>,
    free: Option<u64>,
)
    requires
        !is_allowed(resolved, roots),
    ensures
        run_refusal(asked, place, resolved, roots, free) is Some,
{
}

} // verus!
