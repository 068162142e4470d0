//! Measurements, their history, maintenance, and the change to an administrator.

use crate::bench::{
    depth_of, latency, measured_sum, number_of, outcome, plan_in, position_of, progress_text, rand_part,
    requests, result_text, seq_part, speed, stage_text, unbuffered, value_of, Measured, PlanV, Run,
};
use crate::commands::benchhistory::{
    clean_record, field_name, has_result, history_entry, is_finite, is_short, kept_records,
    numbers_of, units,
};
use crate::commands::diskbench::{
    bench_reply, bench_words, chosen_options, is_allowed, lies_in, run_refusal, BenchOptions, Place,
};
use crate::commands::elevate::{
    handshake_value, is_pending, new_side, old_side, token_in, HandshakeV, NewStep, OldStep, Probe,
};
use crate::commands::maintenance::{run_refusal as task_refusal, task_at, task_line, task_reply};
use crate::commands::memory::whole_in;
use crate::double::{lemma_over_whole, over, whole, TOP};
use crate::json::{member, text_member, JsonV};
use crate::laws::cleanup::law_replies;
use crate::laws::object::lemma_member_at;
use crate::laws::text::{lemma_stands, lemma_stands_last, lemma_stands_on, stands};
use crate::numbers::{number_in, signed_dec, tenths_text, thousandths_text};
use crate::text::{behind, dec, lowercase, trimmed, without_trailing};
use crate::value::bool_member;
use vstd::prelude::*;

verus! {

proof fn lemma_task_keys()
    ensures
        "taskId"@ != "result"@,
        "taskId"@ != "output"@,
        "taskId"@ != "success"@,
        "taskId"@ != "message"@,
        "taskId"@ != "data"@,
        "taskId"@ != "line"@,
        "taskId"@ != "categories"@,
        "taskId"@ != "engine"@,
        "result"@ != "output"@,
        "result"@ != "success"@,
        "result"@ != "message"@,
        "result"@ != "data"@,
        "result"@ != "line"@,
        "result"@ != "categories"@,
        "result"@ != "engine"@,
        "output"@ != "success"@,
        "output"@ != "message"@,
        "output"@ != "data"@,
        "output"@ != "line"@,
        "output"@ != "categories"@,
        "output"@ != "engine"@,
        "success"@ != "message"@,
        "success"@ != "data"@,
        "success"@ != "line"@,
        "success"@ != "categories"@,
        "success"@ != "engine"@,
        "message"@ != "data"@,
        "message"@ != "line"@,
        "message"@ != "categories"@,
        "message"@ != "engine"@,
        "data"@ != "line"@,
        "data"@ != "categories"@,
        "data"@ != "engine"@,
        "line"@ != "categories"@,
        "line"@ != "engine"@,
        "categories"@ != "engine"@,
{
    reveal_strlit("taskId");
    reveal_strlit("result");
    reveal_strlit("output");
    reveal_strlit("success");
    reveal_strlit("message");
    reveal_strlit("data");
    reveal_strlit("line");
    reveal_strlit("categories");
    reveal_strlit("engine");
    assert("taskId"@.len() == 6);
    assert("result"@.len() == 6);
    assert("output"@.len() == 6);
    assert("success"@.len() == 7);
    assert("message"@.len() == 7);
    assert("data"@.len() == 4);
    assert("line"@.len() == 4);
    assert("categories"@.len() == 10);
    assert("engine"@.len() == 6);
    assert("taskId"@[0] != "result"@[0]);
    assert("taskId"@[0] != "output"@[0]);
    assert("taskId"@[0] != "engine"@[0]);
    assert("result"@[0] != "output"@[0]);
    assert("result"@[0] != "engine"@[0]);
    assert("output"@[0] != "engine"@[0]);
    assert("success"@[0] != "message"@[0]);
    assert("data"@[0] != "line"@[0]);
}

proof fn lemma_hand_keys()
    ensures
        "nonce"@ != "phase"@,
        "nonce"@ != "pid"@,
        "nonce"@ != "at"@,
        "phase"@ != "pid"@,
        "phase"@ != "at"@,
        "pid"@ != "at"@,
{
    reveal_strlit("nonce");
    reveal_strlit("phase");
    reveal_strlit("pid");
    reveal_strlit("at");
    assert("nonce"@.len() == 5);
    assert("phase"@.len() == 5);
    assert("pid"@.len() == 3);
    assert("at"@.len() == 2);
    assert("nonce"@[0] != "phase"@[0]);
}

proof fn lemma_field_texts()
    ensures
        "blockSize"@ != "queueDepth"@,
        "blockSize"@ != "threads"@,
        "blockSize"@ != "duration"@,
        "blockSize"@ != "sequentialRead"@,
        "blockSize"@ != "sequentialWrite"@,
        "blockSize"@ != "randomRead"@,
        "blockSize"@ != "randomWrite"@,
        "blockSize"@ != "iops"@,
        "blockSize"@ != "latency"@,
        "blockSize"@ != "path"@,
        "blockSize"@ != "engine"@,
        "blockSize"@ != "id"@,
        "blockSize"@ != "timestamp"@,
        "queueDepth"@ != "threads"@,
        "queueDepth"@ != "duration"@,
        "queueDepth"@ != "sequentialRead"@,
        "queueDepth"@ != "sequentialWrite"@,
        "queueDepth"@ != "randomRead"@,
        "queueDepth"@ != "randomWrite"@,
        "queueDepth"@ != "iops"@,
        "queueDepth"@ != "latency"@,
        "queueDepth"@ != "path"@,
        "queueDepth"@ != "engine"@,
        "queueDepth"@ != "id"@,
        "queueDepth"@ != "timestamp"@,
        "threads"@ != "duration"@,
        "threads"@ != "sequentialRead"@,
        "threads"@ != "sequentialWrite"@,
        "threads"@ != "randomRead"@,
        "threads"@ != "randomWrite"@,
        "threads"@ != "iops"@,
        "threads"@ != "latency"@,
        "threads"@ != "path"@,
        "threads"@ != "engine"@,
        "threads"@ != "id"@,
        "threads"@ != "timestamp"@,
        "duration"@ != "sequentialRead"@,
        "duration"@ != "sequentialWrite"@,
        "duration"@ != "randomRead"@,
        "duration"@ != "randomWrite"@,
        "duration"@ != "iops"@,
        "duration"@ != "latency"@,
        "duration"@ != "path"@,
        "duration"@ != "engine"@,
        "duration"@ != "id"@,
        "duration"@ != "timestamp"@,
        "sequentialRead"@ != "sequentialWrite"@,
        "sequentialRead"@ != "randomRead"@,
        "sequentialRead"@ != "randomWrite"@,
        "sequentialRead"@ != "iops"@,
        "sequentialRead"@ != "latency"@,
        "sequentialRead"@ != "path"@,
        "sequentialRead"@ != "engine"@,
        "sequentialRead"@ != "id"@,
        "sequentialRead"@ != "timestamp"@,
        "sequentialWrite"@ != "randomRead"@,
        "sequentialWrite"@ != "randomWrite"@,
        "sequentialWrite"@ != "iops"@,
        "sequentialWrite"@ != "latency"@,
        "sequentialWrite"@ != "path"@,
        "sequentialWrite"@ != "engine"@,
        "sequentialWrite"@ != "id"@,
        "sequentialWrite"@ != "timestamp"@,
        "randomRead"@ != "randomWrite"@,
        "randomRead"@ != "iops"@,
        "randomRead"@ != "latency"@,
        "randomRead"@ != "path"@,
        "randomRead"@ != "engine"@,
        "randomRead"@ != "id"@,
        "randomRead"@ != "timestamp"@,
        "randomWrite"@ != "iops"@,
        "randomWrite"@ != "latency"@,
        "randomWrite"@ != "path"@,
        "randomWrite"@ != "engine"@,
        "randomWrite"@ != "id"@,
        "randomWrite"@ != "timestamp"@,
        "iops"@ != "latency"@,
        "iops"@ != "path"@,
        "iops"@ != "engine"@,
        "iops"@ != "id"@,
        "iops"@ != "timestamp"@,
        "latency"@ != "path"@,
        "latency"@ != "engine"@,
        "latency"@ != "id"@,
        "latency"@ != "timestamp"@,
        "path"@ != "engine"@,
        "path"@ != "id"@,
        "path"@ != "timestamp"@,
        "engine"@ != "id"@,
        "engine"@ != "timestamp"@,
        "id"@ != "timestamp"@,
{
    reveal_strlit("blockSize");
    reveal_strlit("queueDepth");
    reveal_strlit("threads");
    reveal_strlit("duration");
    reveal_strlit("sequentialRead");
    reveal_strlit("sequentialWrite");
    reveal_strlit("randomRead");
    reveal_strlit("randomWrite");
    reveal_strlit("iops");
    reveal_strlit("latency");
    reveal_strlit("path");
    reveal_strlit("engine");
    reveal_strlit("id");
    reveal_strlit("timestamp");
    assert("blockSize"@.len() == 9);
    assert("queueDepth"@.len() == 10);
    assert("threads"@.len() == 7);
    assert("duration"@.len() == 8);
    assert("sequentialRead"@.len() == 14);
    assert("sequentialWrite"@.len() == 15);
    assert("randomRead"@.len() == 10);
    assert("randomWrite"@.len() == 11);
    assert("iops"@.len() == 4);
    assert("latency"@.len() == 7);
    assert("path"@.len() == 4);
    assert("engine"@.len() == 6);
    assert("id"@.len() == 2);
    assert("timestamp"@.len() == 9);
    assert("blockSize"@[0] != "timestamp"@[0]);
    assert("queueDepth"@[0] != "randomRead"@[0]);
    assert("threads"@[0] != "latency"@[0]);
    assert("iops"@[0] != "path"@[0]);
}

proof fn lemma_words()
    ensures
        "--path"@ != "--block-bytes"@,
        "--path"@ != "--duration"@,
        "--path"@ != "--qd"@,
        "--path"@ != "--threads"@,
        "--path"@ != "--mode"@,
        "--path"@ != "diskbench"@,
        "--path"@ != "buf"@,
        "--path"@ != "nobuf"@,
        "--block-bytes"@ != "--duration"@,
        "--block-bytes"@ != "--qd"@,
        "--block-bytes"@ != "--threads"@,
        "--block-bytes"@ != "--mode"@,
        "--block-bytes"@ != "diskbench"@,
        "--block-bytes"@ != "buf"@,
        "--block-bytes"@ != "nobuf"@,
        "--duration"@ != "--qd"@,
        "--duration"@ != "--threads"@,
        "--duration"@ != "--mode"@,
        "--duration"@ != "diskbench"@,
        "--duration"@ != "buf"@,
        "--duration"@ != "nobuf"@,
        "--qd"@ != "--threads"@,
        "--qd"@ != "--mode"@,
        "--qd"@ != "diskbench"@,
        "--qd"@ != "buf"@,
        "--qd"@ != "nobuf"@,
        "--threads"@ != "--mode"@,
        "--threads"@ != "diskbench"@,
        "--threads"@ != "buf"@,
        "--threads"@ != "nobuf"@,
        "--mode"@ != "diskbench"@,
        "--mode"@ != "buf"@,
        "--mode"@ != "nobuf"@,
        "diskbench"@ != "buf"@,
        "diskbench"@ != "nobuf"@,
        "buf"@ != "nobuf"@,
{
    reveal_strlit("--path");
    reveal_strlit("--block-bytes");
    reveal_strlit("--duration");
    reveal_strlit("--qd");
    reveal_strlit("--threads");
    reveal_strlit("--mode");
    reveal_strlit("diskbench");
    reveal_strlit("buf");
    reveal_strlit("nobuf");
    assert("--path"@.len() == 6);
    assert("--block-bytes"@.len() == 13);
    assert("--duration"@.len() == 10);
    assert("--qd"@.len() == 4);
    assert("--threads"@.len() == 9);
    assert("--mode"@.len() == 6);
    assert("diskbench"@.len() == 9);
    assert("buf"@.len() == 3);
    assert("nobuf"@.len() == 5);
    assert("--path"@[2] != "--mode"@[2]);
    assert("--threads"@[0] != "diskbench"@[0]);
}


// ---------------------------------------------------------------------------- arithmetic

proof fn lemma_exact(a: nat, b: nat, q: nat)
    requires
        a == q * b,
        0 < b <= TOP,
        a <= TOP,
    ensures
        over(whole(a), whole(b)) == (q, 1nat),
        whole(a) == (a, 1nat),
        whole(b) == (b, 1nat),
{
    assert(a % 1 == 0 && a / 1 == a && b % 1 == 0 && b / 1 == b);
    assert(whole(a) == (a, 1nat) && whole(b) == (b, 1nat));
    lemma_over_whole((a, 1nat), (b, 1nat));
    vstd::arithmetic::div_mod::lemma_fundamental_div_mod_converse(
        a as int,
        b as int,
        q as int,
        0,
    );
    assert(q <= a) by (nonlinear_arith)
        requires
            a == q * b,
            b >= 1,
    ;
}

/// A speed is the mebibytes that were moved, for a second.
pub proof fn law_speed(bytes: u64, seconds: nat, per_second: nat)
    requires
        0 < seconds,
        bytes == per_second * seconds * 1_048_576,
        bytes <= TOP,
        seconds * 1000 <= TOP,
    ensures
        speed(bytes, seconds * 1000) == per_second * 10,
{
    let mib = per_second * seconds;
    lemma_exact(bytes as nat, 1_048_576, mib);
    lemma_exact(seconds * 1000, 1000, seconds);
    assert(mib <= bytes);
    lemma_exact(mib, seconds, per_second);
    assert((per_second * 10) % 1 == 0 && (per_second * 10) / 1 == per_second * 10);
}

/// How many requests were done, for a second.
pub proof fn law_requests(ops: u64, seconds: nat, per_second: nat)
    requires
        0 < seconds,
        ops == per_second * seconds,
        ops <= TOP,
        seconds * 1000 <= TOP,
    ensures
        requests(ops, seconds * 1000) == per_second,
{
    lemma_exact(seconds * 1000, 1000, seconds);
    lemma_exact(ops as nat, seconds, per_second);
    assert(per_second * 1 == per_second);
    assert(per_second % 1 == 0 && per_second / 1 == per_second);
}

/// The time of one request is the time of all, divided by their number.
pub proof fn law_latency(m: Measured, millis: nat)
    requires
        m.ops > 0,
        m.nanos == millis * 1_000_000 * m.ops,
        m.nanos <= TOP,
        m.ops <= TOP,
    ensures
        latency(m) == millis * 1000,
{
    let per = millis * 1_000_000;
    lemma_exact(m.nanos as nat, m.ops as nat, per);
    assert(per <= m.nanos) by (nonlinear_arith)
        requires
            m.nanos == per * m.ops,
            m.ops >= 1,
    ;
    lemma_exact(per, 1_000_000, millis);
    assert((millis * 1000) % 1 == 0 && (millis * 1000) / 1 == millis * 1000);
}

/// Without requests there is no time of one.
pub proof fn law_no_requests(m: Measured)
    requires
        m.ops == 0,
    ensures
        latency(m) == 0,
{
}

/// What threads have measured is added up.
pub proof fn law_measured_sum(a: Measured, b: Measured)
    requires
        a.bytes + b.bytes <= u64::MAX,
        a.ops + b.ops <= u64::MAX,
        a.nanos + b.nanos <= u64::MAX,
    ensures
        measured_sum(a, b).bytes == a.bytes + b.bytes,
        measured_sum(a, b).ops == a.ops + b.ops,
        measured_sum(a, b).nanos == a.nanos + b.nanos,
{
}

// ------------------------------------------------------------------------------- results

/// What is told of a measurement: each of the four speeds by its own bytes, in its own time, the
/// requests of reading in any order, and how it was made.
pub proof fn law_measurement_is_told(p: PlanV, r: Run)
    ensures
        ({
            let t = result_text(p, r);
            let full = p.duration as nat * 1000;
            let half = p.duration as nat * 500;
            &&& stands(
                t,
                "{\"measured\":true,\"sequentialRead\":"@ + tenths_text(speed(r.seq_read.bytes, full))
                    + ",\"sequentialWrite\":"@,
            )
            &&& stands(
                t,
                ",\"sequentialWrite\":"@ + tenths_text(speed(r.seq_write.bytes, full))
                    + ",\"randomRead\":"@,
            )
            &&& stands(
                t,
                ",\"randomRead\":"@ + tenths_text(speed(r.rand_read.bytes, half))
                    + ",\"randomWrite\":"@,
            )
            &&& stands(
                t,
                ",\"randomWrite\":"@ + tenths_text(speed(r.rand_write.bytes, half)) + ",\"iops\":"@,
            )
            &&& stands(t, ",\"iops\":"@ + dec(requests(r.rand_read.ops, half)) + ",\"latency\":"@)
            &&& stands(
                t,
                ",\"latency\":"@ + thousandths_text(latency(r.rand_read)) + ",\"blockSize\":"@,
            )
            &&& stands(t, ",\"blockSize\":"@ + dec(p.block as nat) + ",\"queueDepth\":"@)
            &&& stands(t, ",\"queueDepth\":"@ + dec(p.qd as nat) + ",\"threads\":"@)
            &&& stands(t, ",\"threads\":"@ + dec(p.threads as nat) + ",\"duration\":"@)
            &&& stands(t, ",\"duration\":"@ + dec(p.duration as nat) + ",\"ioMode\":\""@)
            &&& !p.buffered && r.drive_known ==> stands(
                t,
                ",\"ioMode\":\""@ + "nobuf"@ + "\",\"qdEffective\":"@,
            )
            &&& p.buffered || !r.drive_known ==> stands(
                t,
                ",\"ioMode\":\""@ + "buf"@ + "\",\"qdEffective\":"@,
            )
            &&& stands(
                t,
                "\",\"qdEffective\":"@ + dec(depth_of(p) as nat) + ",\"elapsedMs\":"@,
            )
            &&& stands(t, ",\"elapsedMs\":"@ + dec(r.elapsed_ms as nat) + "}"@)
        }),
{
    lemma_stands_on();
    let full = p.duration as nat * 1000;
    let half = p.duration as nat * 500;
    let mode = if unbuffered(p, r) {
        "nobuf"@
    } else {
        "buf"@
    };
    let p0 = "{\"measured\":true,\"sequentialRead\":"@ + tenths_text(speed(r.seq_read.bytes, full));
    lemma_stands(
        p0 + ",\"sequentialWrite\":"@,
        Seq::empty(),
        p0 + ",\"sequentialWrite\":"@,
        Seq::empty(),
    );
    let a1 = tenths_text(speed(r.seq_write.bytes, full));
    lemma_stands_last(p0, ",\"sequentialWrite\":"@, a1, ",\"randomRead\":"@);
    let p1 = p0 + ",\"sequentialWrite\":"@ + a1;
    let a2 = tenths_text(speed(r.rand_read.bytes, half));
    lemma_stands_last(p1, ",\"randomRead\":"@, a2, ",\"randomWrite\":"@);
    let p2 = p1 + ",\"randomRead\":"@ + a2;
    let a3 = tenths_text(speed(r.rand_write.bytes, half));
    lemma_stands_last(p2, ",\"randomWrite\":"@, a3, ",\"iops\":"@);
    let p3 = p2 + ",\"randomWrite\":"@ + a3;
    let a4 = dec(requests(r.rand_read.ops, half));
    lemma_stands_last(p3, ",\"iops\":"@, a4, ",\"latency\":"@);
    let p4 = p3 + ",\"iops\":"@ + a4;
    let a5 = thousandths_text(latency(r.rand_read));
    lemma_stands_last(p4, ",\"latency\":"@, a5, ",\"blockSize\":"@);
    let p5 = p4 + ",\"latency\":"@ + a5;
    let a6 = dec(p.block as nat);
    lemma_stands_last(p5, ",\"blockSize\":"@, a6, ",\"queueDepth\":"@);
    let p6 = p5 + ",\"blockSize\":"@ + a6;
    let a7 = dec(p.qd as nat);
    lemma_stands_last(p6, ",\"queueDepth\":"@, a7, ",\"threads\":"@);
    let p7 = p6 + ",\"queueDepth\":"@ + a7;
    let a8 = dec(p.threads as nat);
    lemma_stands_last(p7, ",\"threads\":"@, a8, ",\"duration\":"@);
    let p8 = p7 + ",\"threads\":"@ + a8;
    let a9 = dec(p.duration as nat);
    lemma_stands_last(p8, ",\"duration\":"@, a9, ",\"ioMode\":\""@);
    let p9 = p8 + ",\"duration\":"@ + a9;
    lemma_stands_last(p9, ",\"ioMode\":\""@, mode, "\",\"qdEffective\":"@);
    let p10 = p9 + ",\"ioMode\":\""@ + mode;
    let b = dec(depth_of(p) as nat);
    lemma_stands_last(p10, "\",\"qdEffective\":"@, b, ",\"elapsedMs\":"@);
    let p11 = p10 + "\",\"qdEffective\":"@ + b;
    lemma_stands_last(p11, ",\"elapsedMs\":"@, dec(r.elapsed_ms as nat), "}"@);
}

/// A measurement is told only where its files could be made.
pub proof fn law_measured_or_not(args: Seq<Seq<char>>, r: Run)
    ensures
        outcome(args, r) is Ok <==> plan_in(args) is Ok && r.created,
        outcome(args, r) matches Ok(t) ==> t == result_text(plan_in(args)->Ok_0, r),
{
}

/// A measurement comes along by its stages, to the end.
pub proof fn law_stages()
    ensures
        stage_text(0) == progress_text("seqwrite"@, 0),
        stage_text(1) == progress_text("seqwrite"@, 40),
        stage_text(2) == progress_text("seqread"@, 80),
        stage_text(3) == progress_text("randread"@, 90),
        stage_text(4) == progress_text("randwrite"@, 100),
{
}

/// How much a thread accesses in sequence: its share of a quarter of a gibibyte, in whole blocks.
pub proof fn law_parts(p: PlanV)
    requires
        p.threads == 1,
        p.block == 1048576,
    ensures
        seq_part(p) == 268_435_456,
        rand_part(p) == 134_217_728,
{
}

proof fn lemma_position(args: Seq<Seq<char>>, a: Seq<char>, from: int, i: int)
    requires
        0 <= from <= i < args.len(),
        args[i] == a,
        forall|j: int| from <= j < i ==> args[j] != a,
    ensures
        position_of(args, a, from) == i,
    decreases i - from,
{
    if from < i {
        lemma_position(args, a, from + 1, i);
    }
}

/// The argument behind the first key is its value.
pub proof fn law_argument(args: Seq<Seq<char>>, key: Seq<char>, i: int)
    requires
        0 <= i,
        i + 1 < args.len(),
        args[i] == "--"@ + key,
        forall|j: int| 0 <= j < i ==> args[j] != "--"@ + key,
    ensures
        value_of(args, key) == Some(args[i + 1]),
{
    lemma_position(args, "--"@ + key, 0, i);
}

/// A number behind a key is taken; the usual one where there is none.
pub proof fn law_number_argument(args: Seq<Seq<char>>, key: Seq<char>, other: u64)
    ensures
        value_of(args, key) is None ==> number_of(args, key, other) == other,
        value_of(args, key) matches Some(v) ==> (number_in(v) matches Some(n) ==> number_of(
            args,
            key,
            other,
        ) == n),
{
}

/// A plan is made exactly where a path is given and block and duration are among those that may
/// be asked for; what else is asked for is taken where it may be.
pub proof fn law_plan(args: Seq<Seq<char>>)
    ensures
        ({
            let block = number_of(args, "block-bytes"@, 1048576);
            let duration = number_of(args, "duration"@, 8);
            let qd = number_of(args, "qd"@, 1);
            let threads = number_of(args, "threads"@, 1);
            &&& plan_in(args) is Ok <==> value_of(args, "path"@) is Some && (block == 4096 || block
                == 65536 || block == 1048576) && (duration == 4 || duration == 8 || duration == 16)
            &&& plan_in(args) matches Ok(p) ==> p.block == block && p.duration == duration && p.dir
                == without_trailing(value_of(args, "path"@)->0, '\\', '\\') && p.buffered == (
            value_of(args, "mode"@) == Some("buf"@)) && ((qd == 1 || qd == 8 || qd == 32) ==> p.qd
                == qd) && ((threads == 1 || threads == 4 || threads == 8) ==> p.threads == threads)
        }),
{
}

// ------------------------------------------------------------------------- starting them

/// A setting that may be chosen is taken as it is asked for.
pub proof fn law_chosen_options(opts: JsonV, n: int)
    ensures
        member(opts, "blockSize"@) matches Some(v) && whole_in(v) == Some(4096int)
            ==> chosen_options(opts).block == 4096,
        member(opts, "blockSize"@) matches Some(v) && whole_in(v) == Some(65536int)
            ==> chosen_options(opts).block == 65536,
        member(opts, "queueDepth"@) matches Some(v) && whole_in(v) == Some(32int)
            ==> chosen_options(opts).depth == 32,
        member(opts, "queueDepth"@) matches Some(v) && whole_in(v) == Some(8int)
            ==> chosen_options(opts).depth == 8,
        member(opts, "threads"@) matches Some(v) && whole_in(v) == Some(4int)
            ==> chosen_options(opts).threads == 4,
        member(opts, "threads"@) matches Some(v) && whole_in(v) == Some(8int)
            ==> chosen_options(opts).threads == 8,
        member(opts, "duration"@) matches Some(v) && whole_in(v) == Some(4int)
            ==> chosen_options(opts).seconds == 4,
        member(opts, "duration"@) matches Some(v) && whole_in(v) == Some(16int)
            ==> chosen_options(opts).seconds == 16,
        member(opts, "blockSize"@) is None ==> chosen_options(opts).block == 1048576,
        member(opts, "queueDepth"@) is None ==> chosen_options(opts).depth == 1,
        member(opts, "threads"@) is None ==> chosen_options(opts).threads == 1,
        member(opts, "duration"@) is None ==> chosen_options(opts).seconds == 8,
        chosen_options(opts).buffered <==> text_member(opts, "ioMode"@) == Some("buf"@),
{
}

/// What a measurement is started with is read back as what was chosen.
pub proof fn law_words_are_read_back(path: Seq<char>, o: BenchOptions)
    requires
        path != "--block-bytes"@,
        path != "--duration"@,
        path != "--qd"@,
        path != "--threads"@,
        path != "--mode"@,
        path.len() > 0,
    ensures
        ({
            let w = bench_words(path, o);
            &&& value_of(w, "path"@) == Some(path)
            &&& w[4] == dec(o.block as nat) && w[3] == "--block-bytes"@
            &&& w[6] == dec(o.seconds as nat) && w[5] == "--duration"@
            &&& w[8] == dec(o.depth as nat) && w[7] == "--qd"@
            &&& w[10] == dec(o.threads as nat) && w[9] == "--threads"@
            &&& o.buffered ==> w[12] == "buf"@
            &&& !o.buffered ==> w[12] == "nobuf"@
            &&& w[11] == "--mode"@
        }),
{
    lemma_words();
    reveal_strlit("--");
    reveal_strlit("path");
    reveal_strlit("--path");
    let w = bench_words(path, o);
    assert("--"@ + "path"@ =~= "--path"@);
    lemma_position(w, "--path"@, 0, 1);
}

/// A measurement is made exactly where a plain directory of the user is asked for and a gibibyte
/// is free there, as far as that is known.
pub proof fn law_measured_place(
    asked: Seq<char>,
    place: Place,
    resolved: Seq<char>,
    roots: Seq<Seq<char>>,
    free: Option<u64>,
)
    ensures
        run_refusal(asked, place, resolved, roots, free) is None <==> asked.len() > 0 && place
            == Place::PlainDir && is_allowed(resolved, roots) && (free is None || free->0
            >= 1024 * 1024 * 1024),
{
}

/// A path lies in a directory where it is the directory or goes on behind it after a separator;
/// one that only starts alike does not.
pub proof fn law_lies_in(root: Seq<char>, rest: Seq<char>, target: Seq<char>)
    requires
        lowercase(target) == without_trailing(lowercase(root), '\\', '\\') + rest,
    ensures
        rest.len() == 0 ==> lies_in(target, root),
        rest.len() > 0 && rest[0] == '\\' ==> lies_in(target, root),
        rest.len() > 0 && rest[0] != '\\' ==> !lies_in(target, root),
{
    reveal_strlit("\\");
    let r = without_trailing(lowercase(root), '\\', '\\');
    let t = lowercase(target);
    if rest.len() == 0 {
        assert(t =~= r);
    } else {
        let p = r + "\\"@;
        if rest[0] == '\\' {
            assert(t.subrange(0, p.len() as int) =~= p);
        } else {
            assert(t.len() != r.len());
            if p.is_prefix_of(t) {
                assert(t.subrange(0, p.len() as int)[r.len() as int] == p[r.len() as int]);
                assert(t[r.len() as int] == rest[0]);
            }
        }
    }
}

/// What is told of a measurement that was started: that it succeeded only where it says that it
/// measured; what did not is cleared away.
pub proof fn law_started_measurement_is_told(t: Seq<char>, d: JsonV)
    requires
        crate::value::json_told(trimmed(t)) == Ok::<JsonV, Seq<char>>(d),
    ensures
        bool_member(bench_reply(Some(t)).0, "success"@) == Some(
            bool_member(d, "measured"@) == Some(true),
        ),
        bench_reply(Some(t)).1 <==> bool_member(d, "measured"@) != Some(true),
        member(bench_reply(Some(t)).0, "data"@) == Some(d),
        bench_reply(None).1,
        bool_member(bench_reply(None).0, "success"@) == Some(false),
{
    lemma_task_keys();
    law_replies("磁盘测速超时（原生引擎）"@, d);
    let m = bench_reply(Some(t)).0->Obj_0;
    lemma_member_at(m, 0);
    lemma_member_at(m, 1);
}

// ------------------------------------------------------------------------------- history

/// Of a record every one of its numbers is kept, and one that is no finite number refuses it.
pub proof fn law_numbers_are_kept(r: JsonV, n: int, i: int)
    requires
        0 <= i < n <= 10,
        numbers_of(r, n) is Ok,
    ensures
        is_finite(member(r, field_name(i))) ==> numbers_of(r, n)->Ok_0.contains(
            (field_name(i), member(r, field_name(i))->0),
        ),
        is_finite(member(r, field_name(i))) || member(r, field_name(i)) is None || member(
            r,
            field_name(i),
        ) == Some(JsonV::Null),
    decreases n,
{
    let now = numbers_of(r, n)->Ok_0;
    let before = numbers_of(r, n - 1)->Ok_0;
    if i < n - 1 {
        law_numbers_are_kept(r, n - 1, i);
        if is_finite(member(r, field_name(i))) {
            let x = (field_name(i), member(r, field_name(i))->0);
            let k = choose|k: int| 0 <= k < before.len() && before[k] == x;
            assert(now[k] == x);
        }
    } else if is_finite(member(r, field_name(i))) {
        assert(now[before.len() as int] == (field_name(i), member(r, field_name(i))->0));
    }
}

/// A record is kept exactly where its members are what they must be: its numbers numbers, its
/// path a short text, its engine one of the two, and a result among them.
pub proof fn law_record_is_kept(m: Seq<(Seq<char>, JsonV)>)
    ensures
        ({
            let r = JsonV::Obj(m);
            let path = member(r, "path"@);
            let engine = member(r, "engine"@);
            clean_record(Some(r)) is Ok <==> numbers_of(r, 10) is Ok && (path is None || (path->0 is Str
                && is_short(path->0->Str_0))) && (engine is None || engine->0 == JsonV::Str("rust"@)
                || engine->0 == JsonV::Str("powershell"@)) && has_result(r)
        }),
        clean_record(None) is Err,
{
}

/// A record is put down with its name and its moment before its numbers.
pub proof fn law_history_entry(id: Seq<char>, moment: Seq<char>, kept: Seq<(Seq<char>, JsonV)>)
    ensures
        text_member(history_entry(id, moment, kept), "id"@) == Some(id),
        text_member(history_entry(id, moment, kept), "timestamp"@) == Some(moment),
        history_entry(id, moment, kept)->Obj_0.skip(2) == kept,
{
    lemma_field_texts();
    let m = history_entry(id, moment, kept)->Obj_0;
    lemma_member_at(m, 0);
    lemma_member_at(m, 1);
    assert(m.skip(2) =~= kept);
}

/// A character beyond the first plane takes two units of a path, every other one.
pub proof fn law_units(s: Seq<char>, c: char)
    ensures
        c as u32 >= 0x10000 ==> units(s.push(c), (s.len() + 1) as int) == units(s, s.len() as int) + 2,
        (c as u32) < 0x10000 ==> units(s.push(c), (s.len() + 1) as int) == units(s, s.len() as int) + 1,
{
    lemma_units_front(s, c, s.len() as int);
}

proof fn lemma_units_front(s: Seq<char>, c: char, n: int)
    requires
        0 <= n <= s.len(),
    ensures
        units(s.push(c), n) == units(s, n),
    decreases n,
{
    if n > 0 {
        lemma_units_front(s, c, n - 1);
    }
}

/// What is kept of a history is its first fifty records.
pub proof fn law_kept_records(l: Seq<JsonV>)
    ensures
        l.len() <= 50 ==> kept_records(l) == l,
        l.len() > 50 ==> kept_records(l) == l.take(50),
{
}

// --------------------------------------------------------------------------- maintenance

/// A task is run exactly where it is named and known, none runs, and an administrator asks for
/// it where it needs one.
pub proof fn law_task_is_run(id: Seq<char>, tasks: Seq<JsonV>, admin: bool)
    ensures
        task_refusal(Some(id), None, tasks, admin) is None <==> id.len() > 0 && task_at(tasks, id, 0) is Some
            && (bool_member(task_at(tasks, id, 0)->0, "admin"@) == Some(true) ==> admin),
        task_refusal(None, None, tasks, admin) is Some,
{
}

/// The task with a name is the first that has it.
pub proof fn law_task_with_name(tasks: Seq<JsonV>, id: Seq<char>, from: int, i: int)
    requires
        0 <= from <= i < tasks.len(),
        text_member(tasks[i], "id"@) == Some(id),
        forall|j: int| from <= j < i ==> text_member(#[trigger] tasks[j], "id"@) != Some(id),
    ensures
        task_at(tasks, id, from) == Some(tasks[i]),
    decreases i - from,
{
    if from < i {
        law_task_with_name(tasks, id, from + 1, i);
    }
}

/// What is told of a task.
pub proof fn law_task_is_told(
    id: Seq<char>,
    ok: bool,
    message: Seq<char>,
    result: Seq<char>,
    output: Seq<char>,
    line: Seq<char>,
)
    ensures
        ({
            let r = task_reply(id, ok, message, result, output);
            let d = member(r, "data"@)->0;
            &&& bool_member(r, "success"@) == Some(ok)
            &&& text_member(r, "message"@) == Some(message)
            &&& text_member(d, "taskId"@) == Some(id)
            &&& text_member(d, "result"@) == Some(result)
            &&& text_member(d, "output"@) == Some(output)
        }),
        text_member(task_line(id, line), "taskId"@) == Some(id),
        text_member(task_line(id, line), "line"@) == Some(line),
{
    lemma_task_keys();
    let m = task_reply(id, ok, message, result, output)->Obj_0;
    lemma_member_at(m, 0);
    lemma_member_at(m, 1);
    lemma_member_at(m, 2);
    let d = m[2].1->Obj_0;
    lemma_member_at(d, 0);
    lemma_member_at(d, 1);
    lemma_member_at(d, 2);
    lemma_member_at(task_line(id, line)->Obj_0, 0);
    lemma_member_at(task_line(id, line)->Obj_0, 1);
}

// ------------------------------------------------------------------------- administrators

/// A program takes the place of another exactly where it has the token of the request that
/// waits and is an administrator's.
pub proof fn law_pending(nonce: Seq<char>, admin: bool, h: (Seq<char>, Seq<char>))
    ensures
        is_pending(Some(nonce), admin, Some(h)) <==> admin && h.0 == nonce && h.1 == "requested"@,
        !is_pending(None, admin, Some(h)),
{
}

/// The token is what stands behind the mark.
pub proof fn law_token(args: Seq<Seq<char>>, from: int, i: int)
    requires
        0 <= from <= i < args.len(),
        behind(args[i], "--elevated-relaunch="@) is Some,
        forall|j: int|
            from <= j < i ==> behind(#[trigger] args[j], "--elevated-relaunch="@) is None,
    ensures
        token_in(args, from) == behind(args[i], "--elevated-relaunch="@),
    decreases i - from,
{
    if from < i {
        law_token(args, from + 1, i);
    }
}

/// The new program goes on exactly where the old one has made way for this very request, and
/// gives up after fifteen seconds.
pub proof fn law_new_program(h: HandshakeV, nonce: Seq<char>, waited_ms: u64)
    ensures
        new_side(Some(h), nonce, waited_ms) == NewStep::Released <==> h.nonce == nonce && h.phase
            == "released"@,
        !(h.nonce == nonce && h.phase == "released"@) && waited_ms <= 15_000 ==> new_side(
            Some(h),
            nonce,
            waited_ms,
        ) == NewStep::Wait,
        new_side(None, nonce, waited_ms) != NewStep::Released,
{
}

/// The old program makes way exactly where another program has answered this very request and
/// still runs, and stays after twenty seconds.
pub proof fn law_old_program(h: HandshakeV, nonce: Seq<char>, own: u32, probe: Probe, waited_ms: u64)
    ensures
        old_side(Some(h), nonce, own, probe, waited_ms) == OldStep::MakeWay <==> h.nonce == nonce
            && h.phase == "ready"@ && h.pid != 0 && h.pid != own && (probe == Probe::Denied || probe
            == Probe::Running),
        old_side(None, nonce, own, probe, waited_ms) != OldStep::MakeWay,
        waited_ms <= 20_000 ==> old_side(None, nonce, own, probe, waited_ms) == OldStep::Wait,
{
}

/// What is written down of a request.
pub proof fn law_request_is_put_down(nonce: Seq<char>, phase: Seq<char>, pid: nat, at: int)
    ensures
        text_member(handshake_value(nonce, phase, pid, at), "nonce"@) == Some(nonce),
        text_member(handshake_value(nonce, phase, pid, at), "phase"@) == Some(phase),
        member(handshake_value(nonce, phase, pid, at), "pid"@) == Some(JsonV::Num(dec(pid))),
        member(handshake_value(nonce, phase, pid, at), "at"@) == Some(JsonV::Num(signed_dec(at))),
{
    lemma_hand_keys();
    let m = handshake_value(nonce, phase, pid, at)->Obj_0;
    lemma_member_at(m, 0);
    lemma_member_at(m, 1);
    lemma_member_at(m, 2);
    lemma_member_at(m, 3);
}

} // verus!
