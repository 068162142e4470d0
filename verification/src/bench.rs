//! Measuring how fast a disk is: what a request asks for, where the accesses go,
//! and how the result is reported.

use crate::double::{in_parts, lemma_over_whole, near, near_whole, over, parts, scaled, whole, Binary};
use crate::json::{escaped, json_escape};
use crate::numbers::{
    number_in, read_number, tenths, tenths_text, thousandths, thousandths_text, wide_decimal,
};
use crate::text::{
    cap64, cat, cat3, char_bytes, chars_of, dec, decimal, same, string_of, texts, trim_trailing, utf8_width, without_trailing,
};
use vstd::prelude::*;

verus! {

// --------------------------------------------------------------------------- arguments

/// The position of an argument, at or after `i`.
pub open spec fn position_of(args: Seq<Seq<char>>, a: Seq<char>, i: int) -> int
    decreases args.len() - i,
{
    if i < 0 || i >= args.len() || args[i] == a {
        i
    } else {
        position_of(args, a, i + 1)
    }
}

/// The argument behind the first `--key`.
pub open spec fn value_of(args: Seq<Seq<char>>, key: Seq<char>) -> Option<Seq<char>> {
    let i = position_of(args, "--"@ + key, 0);
    if i + 1 < args.len() {
        Some(args[i + 1])
    } else {
        None
    }
}

/// The argument behind the first `--key`.
pub fn arg_value<'a>(args: &'a Vec<String>, key: &str) -> (out: Option<&'a str>)
    ensures
        match out {
            Some(v) => value_of(texts(args@), key@) == Some(v@),
            None => value_of(texts(args@), key@) is None,
        },
{
    let k: String = cat("--", key);
    let ghost list = texts(args@);
    let mut i: usize = 0;
    while i < args.len()
        invariant
            i <= args@.len(),
            k@ == "--"@ + key@,
            list == texts(args@),
            position_of(list, k@, 0) == position_of(list, k@, i as int),
        decreases args@.len() - i,
    {
        assert(list[i as int] == args@[i as int]@);
        if same(args[i].as_str(), k.as_str()) {
            if args.len() - i > 1 {
                assert(list[i + 1] == args@[i + 1]@);
                return Some(args[i + 1].as_str());
            }
            return None;
        }
        i += 1;
    }
    None
}

/// The number behind the first `--key`; `other` where there is none.
pub open spec fn number_of(args: Seq<Seq<char>>, key: Seq<char>, other: u64) -> u64 {
    match value_of(args, key) {
        Some(v) => match number_in(v) {
            Some(n) => n,
            None => other,
        },
        None => other,
    }
}

/// The number behind the first `--key`; `other` where there is none.
pub fn arg_number(args: &Vec<String>, key: &str, other: u64) -> (out: u64)
    ensures
        out == number_of(texts(args@), key@, other),
{
    match arg_value(args, key) {
        Some(v) => match read_number(v) {
            Some(n) => n,
            None => other,
        },
        None => other,
    }
}

// -------------------------------------------------------------------------- the request

/// What is to be measured: below which directory, with which block size in bytes,
/// for how many seconds, with how many requests in flight and how many threads,
/// and whether the buffers of the system may be used.
#[derive(Debug)]
pub struct Plan {
    pub dir: String,
    pub block: u64,
    pub duration: u64,
    pub qd: u64,
    pub threads: u64,
    pub buffered: bool,
}

/// The mathematical value of a request.
pub ghost struct PlanV {
    pub dir: Seq<char>,
    pub block: u64,
    pub duration: u64,
    pub qd: u64,
    pub threads: u64,
    pub buffered: bool,
}

pub open spec fn block_known(n: u64) -> bool {
    n == 4096 || n == 65536 || n == 1048576
}

pub open spec fn duration_known(n: u64) -> bool {
    n == 4 || n == 8 || n == 16
}

pub open spec fn qd_known(n: u64) -> bool {
    n == 1 || n == 8 || n == 32
}

pub open spec fn threads_known(n: u64) -> bool {
    n == 1 || n == 4 || n == 8
}

/// What the arguments ask for, or why they are refused.
pub open spec fn plan_in(args: Seq<Seq<char>>) -> Result<PlanV, Seq<char>> {
    let block = number_of(args, "block-bytes"@, 1048576);
    let duration = number_of(args, "duration"@, 8);
    let qd = number_of(args, "qd"@, 1);
    let threads = number_of(args, "threads"@, 1);
    match value_of(args, "path"@) {
        None => Err("缺少 --path"@),
        Some(p) => if !block_known(block) || !duration_known(duration) {
            Err("非法参数（block/duration 不在白名单）"@)
        } else {
            Ok(
                PlanV {
                    dir: without_trailing(p, '\\', '\\'),
                    block,
                    duration,
                    qd: if qd_known(qd) {
                        qd
                    } else {
                        1
                    },
                    threads: if threads_known(threads) {
                        threads
                    } else {
                        1
                    },
                    buffered: value_of(args, "mode"@) == Some("buf"@),
                },
            )
        },
    }
}

impl Plan {
    pub open spec fn view(self) -> PlanV {
        PlanV {
            dir: self.dir@,
            block: self.block,
            duration: self.duration,
            qd: self.qd,
            threads: self.threads,
            buffered: self.buffered,
        }
    }

    /// Whether the numbers are among those that may be asked for.
    pub open spec fn wf(self) -> bool {
        block_known(self.block) && duration_known(self.duration) && qd_known(self.qd)
            && threads_known(self.threads)
    }
}

/// What the arguments ask for, or why they are refused.
pub fn bench_plan(args: &Vec<String>) -> (out: Result<Plan, String>)
    ensures
        match out {
            Ok(p) => plan_in(texts(args@)) == Ok::<PlanV, Seq<char>>(p.view()) && p.wf(),
            Err(e) => plan_in(texts(args@)) == Err::<PlanV, Seq<char>>(e@),
        },
{
    let dir: String = match arg_value(args, "path") {
        None => {
            return Err("缺少 --path".to_owned());
        },
        Some(p) => trim_trailing(p, '\\', '\\'),
    };
    let block: u64 = arg_number(args, "block-bytes", 1048576);
    let duration: u64 = arg_number(args, "duration", 8);
    let qd: u64 = arg_number(args, "qd", 1);
    let threads: u64 = arg_number(args, "threads", 1);
    if !(block == 4096 || block == 65536 || block == 1048576) || !(duration == 4 || duration == 8
        || duration == 16) {
        return Err("非法参数（block/duration 不在白名单）".to_owned());
    }
    let buffered: bool = match arg_value(args, "mode") {
        Some(m) => same(m, "buf"),
        None => false,
    };
    Ok(
        Plan {
            dir,
            block,
            duration,
            qd: if qd == 1 || qd == 8 || qd == 32 {
                qd
            } else {
                1
            },
            threads: if threads == 1 || threads == 4 || threads == 8 {
                threads
            } else {
                1
            },
            buffered,
        },
    )
}

// ----------------------------------------------------------------- what follows from it

/// How many bytes of buffers one thread may use.
pub const BUF_CAP_PER_THREAD: u64 = 16_777_216;

/// How much all threads access in sequence, in bytes.
pub const SEQ_WINDOW_TOTAL: u64 = 268_435_456;

/// How much all threads access in any order, in bytes.
pub const RAND_WINDOW_TOTAL: u64 = 134_217_728;

/// The size of an access in any order, in bytes.
pub const RAND_BLOCK: u64 = 4096;

pub open spec fn at_least(n: int, low: int) -> int {
    if n < low {
        low
    } else {
        n
    }
}

/// How many requests one thread keeps in flight: as many as asked for, unless their
/// buffers would be too large.
pub open spec fn depth_of(p: PlanV) -> int {
    let room = at_least(BUF_CAP_PER_THREAD as int / p.block as int, 1);
    let asked = at_least(p.qd as int, 1);
    if asked < room {
        asked
    } else {
        room
    }
}

/// How much of its file one thread accesses in sequence.
pub open spec fn seq_part(p: PlanV) -> int {
    at_least(SEQ_WINDOW_TOTAL as int / p.threads as int / p.block as int, 8) * p.block
}

/// How much of its file one thread accesses in any order.
pub open spec fn rand_part(p: PlanV) -> int {
    at_least(RAND_WINDOW_TOTAL as int / p.threads as int / RAND_BLOCK as int, 8) * RAND_BLOCK
}

impl Plan {
    /// How many requests one thread keeps in flight.
    pub fn depth(&self) -> (out: u64)
        requires
            self.wf(),
        ensures
            out == depth_of(self.view()),
            1 <= out <= self.qd,
    {
        let share: u64 = BUF_CAP_PER_THREAD / self.block;
        let room: u64 = if share < 1 {
            1
        } else {
            share
        };
        if self.qd < room {
            self.qd
        } else {
            room
        }
    }

    /// How much of its file one thread accesses in sequence.
    pub fn seq_size(&self) -> (out: u64)
        requires
            self.wf(),
        ensures
            out == seq_part(self.view()),
            out > 0,
    {
        let share: u64 = SEQ_WINDOW_TOTAL / self.threads / self.block;
        let n: u64 = if share < 8 {
            8
        } else {
            share
        };
        n * self.block
    }

    /// How much of its file one thread accesses in any order.
    pub fn rand_size(&self) -> (out: u64)
        requires
            self.wf(),
        ensures
            out == rand_part(self.view()),
            out >= 8 * RAND_BLOCK,
            out <= RAND_WINDOW_TOTAL,
    {
        let share: u64 = RAND_WINDOW_TOTAL / self.threads / RAND_BLOCK;
        let n: u64 = if share < 8 {
            8
        } else {
            share
        };
        n * RAND_BLOCK
    }

    /// The directory for the files of the measurement.
    pub fn bench_dir(&self) -> (out: String)
        ensures
            out@ == self.dir@ + "\\Trim-DiskBench"@,
    {
        cat(self.dir.as_str(), "\\Trim-DiskBench")
    }

    /// The file of a thread.
    pub fn bench_file(&self, t: u64) -> (out: String)
        ensures
            out@ == self.dir@ + "\\Trim-DiskBench"@ + "\\"@ + ("tb_t"@ + dec(t as nat) + ".bin"@),
    {
        let dir: String = self.bench_dir();
        let name: String = cat3("tb_t", decimal(t).as_str(), ".bin");
        cat3(dir.as_str(), "\\", name.as_str())
    }

    /// The root of the drive that is measured: the first three bytes of the
    /// directory and a backslash. None where the third byte is not the last of a
    /// character.
    pub fn drive_root(&self) -> (out: Option<String>)
        ensures
            match out {
                Some(r) => head_chars(self.dir@, 3) matches Some(n) && r@ == self.dir@.take(n)
                    + "\\"@,
                None => head_chars(self.dir@, 3) is None,
            },
    {
        let v: Vec<char> = chars_of(self.dir.as_str());
        let mut left: u32 = 3;
        let mut i: usize = 0;
        assert(head_chars(self.dir@.skip(0), 3) == head_chars(self.dir@, 3)) by {
            assert(self.dir@.skip(0) =~= self.dir@);
        }
        while i < v.len() && left > 0
            invariant
                i <= v@.len(),
                left <= 3,
                v@ == self.dir@,
                match head_chars(self.dir@.skip(i as int), left as int) {
                    Some(n) => head_chars(self.dir@, 3) == Some(n + i),
                    None => head_chars(self.dir@, 3) is None,
                },
            decreases v@.len() - i,
        {
            let ghost rest = self.dir@.skip(i as int);
            assert(rest.skip(1) =~= self.dir@.skip(i + 1));
            assert(rest[0] == v@[i as int]);
            let c: char = v[i];
            let w: u32 = char_bytes(c);
            if w > left {
                return None;
            }
            left -= w;
            i += 1;
        }
        let head: String = string_of(&v, 0, i);
        assert(head@ =~= self.dir@.take(i as int));
        Some(cat(head.as_str(), "\\"))
    }
}

/// How many characters make the first `bytes` bytes of a text, or the whole of a
/// shorter one. None where the last of these bytes is inside a character.
pub open spec fn head_chars(s: Seq<char>, bytes: int) -> Option<int>
    decreases s.len(),
{
    if s.len() == 0 || bytes <= 0 {
        Some(0)
    } else if utf8_width(s[0]) > bytes {
        None
    } else {
        match head_chars(s.skip(1), bytes - utf8_width(s[0])) {
            Some(n) => Some(n + 1),
            None => None,
        }
    }
}

// --------------------------------------------------------------------------- offsets

/// The next state of the generator.
pub open spec fn next_state(s: u64) -> u64 {
    let a = s ^ (s << 13u64);
    let b = a ^ (a >> 7u64);
    b ^ (b << 17u64)
}

/// The first state of the generator.
pub open spec fn first_state(n: u64) -> u64 {
    let s = 0x9E37_79B9_7F4A_7C15u64 ^ n.wrapping_mul(0xA076_1D64_78BD_642Fu64);
    if s == 0 {
        0xDEAD_BEEF
    } else {
        s
    }
}

pub open spec fn exchanged(map: Seq<u64>, i: int, j: int) -> Seq<u64> {
    map.update(i, map[j]).update(j, map[i])
}

/// The offsets, shuffled from position `i` down.
pub open spec fn shuffled(map: Seq<u64>, s: u64, i: int) -> Seq<u64>
    decreases i,
{
    if i <= 0 {
        map
    } else {
        let t = next_state(s);
        shuffled(exchanged(map, i, t as int % (i + 1)), t, i - 1)
    }
}

/// The offsets of the blocks of a file, in order.
pub open spec fn in_order(n: int, io_size: u64) -> Seq<u64> {
    Seq::new(n as nat, |i: int| (i * io_size) as u64)
}

/// The offsets of the blocks of a file in the order in which they are accessed.
pub open spec fn offsets(file_size: u64, io_size: u64) -> Seq<u64> {
    let n = file_size as int / io_size as int;
    shuffled(in_order(n, io_size), first_state(n as u64), n - 1)
}

/// The offsets of the blocks of a file in the order in which they are accessed.
pub fn build_offset_map(file_size: u64, io_size: u64) -> (out: Vec<u64>)
    requires
        io_size > 0,
        file_size / io_size <= usize::MAX,
    ensures
        out@ == offsets(file_size, io_size),
{
    let n: usize = (file_size / io_size) as usize;
    let mut map: Vec<u64> = Vec::new();
    let mut k: usize = 0;
    while k < n
        invariant
            k <= n,
            n == file_size as int / io_size as int,
            io_size > 0,
            map@.len() == k,
            forall|i: int| 0 <= i < k ==> (#[trigger] map@[i]) == i * io_size,
        decreases n - k,
    {
        assert(k * io_size <= file_size && 0 <= k * io_size) by (nonlinear_arith)
            requires
                0 <= k < n,
                n == file_size as int / io_size as int,
                io_size > 0,
        ;
        map.push(k as u64 * io_size);
        k += 1;
    }
    assert forall|i: int| 0 <= i < n implies (#[trigger] map@[i]) == in_order(
        n as int,
        io_size,
    )[i] by {
        assert(map@[i] == i * io_size);
    }
    assert(map@ =~= in_order(n as int, io_size));
    let mut s: u64 = 0x9E37_79B9_7F4A_7C15u64 ^ (n as u64).wrapping_mul(0xA076_1D64_78BD_642Fu64);
    if s == 0 {
        s = 0xDEAD_BEEF;
    }
    assert(s == first_state(n as u64));
    let mut left: usize = n;
    while left > 1
        invariant
            left <= n,
            map@.len() == n,
            n == file_size as int / io_size as int,
            shuffled(map@, s, left - 1) == offsets(file_size, io_size),
        decreases left,
    {
        let i: usize = left - 1;
        s = s ^ (s << 13u64);
        s = s ^ (s >> 7u64);
        s = s ^ (s << 17u64);
        let j: usize = (s % (i as u64 + 1)) as usize;
        let a: u64 = map[i];
        let b: u64 = map[j];
        let ghost before = map@;
        map.set(i, b);
        map.set(j, a);
        assert(map@ == exchanged(before, i as int, j as int));
        left = i;
    }
    map
}

/// Where the accesses of one stage go: one behind the other through the part of
/// the file that is accessed in sequence, or by a list of offsets; in either case
/// from the start again when the end is reached.
#[derive(Debug)]
pub struct Cursor {
    pub random: bool,
    pub io_size: u64,
    pub seq_size: u64,
    pub next_seq: u64,
    pub ring: usize,
}

impl Cursor {
    /// Whether the position is one that an access can have.
    pub open spec fn wf(self, list: Seq<u64>) -> bool {
        if self.random {
            self.ring < list.len()
        } else {
            self.next_seq < self.seq_size && self.seq_size <= 0x100_0000_0000 && self.io_size
                <= 0x100_0000_0000
        }
    }

    /// The offset of the next access. The one after it follows behind it.
    pub fn next(&mut self, list: &Vec<u64>) -> (out: u64)
        requires
            old(self).wf(list@),
        ensures
            final(self).wf(list@),
            old(self).random ==> out == list@[old(self).ring as int],
            old(self).random ==> *final(self) == (Cursor {
                ring: ((old(self).ring + 1) % list@.len() as int) as usize,
                ..*old(self)
            }),
            !old(self).random ==> out == old(self).next_seq,
            !old(self).random ==> *final(self) == (Cursor {
                next_seq: ((old(self).next_seq + old(self).io_size)
                    % old(self).seq_size as int) as u64,
                ..*old(self)
            }),
    {
        if self.random {
            let o: u64 = list[self.ring];
            proof {
                let n = list@.len() as int;
                let k = self.ring + 1;
                assert(k % n == (if k == n {
                    0
                } else {
                    k
                })) by (nonlinear_arith)
                    requires
                        0 < k <= n,
                ;
            }
            self.ring = if list.len() - self.ring == 1 {
                0
            } else {
                self.ring + 1
            };
            o
        } else {
            let o: u64 = self.next_seq;
            self.next_seq = (self.next_seq + self.io_size) % self.seq_size;
            o
        }
    }
}

/// What was measured: bytes, completed requests and the time they took together,
/// in nanoseconds.
#[derive(Debug, Clone, Copy)]
pub struct Measured {
    pub bytes: u64,
    pub ops: u64,
    pub nanos: u64,
}

pub open spec fn measured_sum(a: Measured, b: Measured) -> Measured {
    Measured {
        bytes: cap64((a.bytes + b.bytes) as nat) as u64,
        ops: cap64((a.ops + b.ops) as nat) as u64,
        nanos: cap64((a.nanos + b.nanos) as nat) as u64,
    }
}

impl Measured {
    /// Adds what another thread has measured.
    pub fn join(&mut self, other: &Measured)
        ensures
            *final(self) == measured_sum(*old(self), *other),
    {
        self.bytes = self.bytes.saturating_add(other.bytes);
        self.ops = self.ops.saturating_add(other.ops);
        self.nanos = self.nanos.saturating_add(other.nanos);
    }

    /// Counts a request that was completed. One that could not be submitted does
    /// not count.
    pub fn complete(&mut self, submitted: bool, transferred: u32, started: u64, now: u64)
        ensures
            *final(self) == (if submitted {
                measured_sum(
                    *old(self),
                    Measured {
                        bytes: transferred as u64,
                        ops: 1,
                        nanos: if now > started {
                            (now - started) as u64
                        } else {
                            0
                        },
                    },
                )
            } else {
                *old(self)
            }),
    {
        if submitted {
            let spent: u64 = if now > started {
                now - started
            } else {
                0
            };
            self.join(&Measured { bytes: transferred as u64, ops: 1, nanos: spent });
        }
    }
}

// ----------------------------------------------------------------------------- results

/// How far a measurement has come after each of its stages.
pub open spec fn stage_text(done: nat) -> Seq<char> {
    if done == 0 {
        progress_text("seqwrite"@, 0)
    } else if done == 1 {
        progress_text("seqwrite"@, 40)
    } else if done == 2 {
        progress_text("seqread"@, 80)
    } else if done == 3 {
        progress_text("randread"@, 90)
    } else {
        progress_text("randwrite"@, 100)
    }
}

pub open spec fn progress_text(phase: Seq<char>, percent: nat) -> Seq<char> {
    "{\"phase\":\""@ + phase + "\",\"percent\":"@ + dec(
        if percent < 100 {
            percent
        } else {
            100
        },
    ) + "}"@
}

/// A line of progress.
pub fn bench_progress(phase: &str, percent: u64) -> (out: String)
    ensures
        out@ == progress_text(phase@, percent as nat),
{
    let mut s: String = cat3("{\"phase\":\"", phase, "\",\"percent\":");
    s.append(
        decimal(
            if percent < 100 {
                percent
            } else {
                100
            },
        ).as_str(),
    );
    s.append("}");
    s
}

/// The line of progress after a number of stages.
pub fn stage_progress(done: u8) -> (out: String)
    ensures
        out@ == stage_text(done as nat),
{
    if done == 0 {
        bench_progress("seqwrite", 0)
    } else if done == 1 {
        bench_progress("seqwrite", 40)
    } else if done == 2 {
        bench_progress("seqread", 80)
    } else if done == 3 {
        bench_progress("randread", 90)
    } else {
        bench_progress("randwrite", 100)
    }
}

/// What came of a measurement: whether the system told about the drive, whether a
/// file could be made, what the four stages have measured, and how long it took.
#[derive(Debug)]
pub struct Run {
    pub drive_known: bool,
    pub created: bool,
    pub seq_write: Measured,
    pub seq_read: Measured,
    pub rand_read: Measured,
    pub rand_write: Measured,
    pub elapsed_ms: u64,
}

/// Bytes in a time as tenths of mebibytes in a second.
pub open spec fn speed(bytes: u64, ms: nat) -> nat {
    in_parts(
        over(over(whole(bytes as nat), whole(1_048_576)), over(whole(ms), whole(1000))),
        10,
    )
}

/// Requests in a time, for a second.
pub open spec fn requests(ops: u64, ms: nat) -> nat {
    in_parts(over(whole(ops as nat), over(whole(ms), whole(1000))), 1)
}

/// The time of one request, in thousandths of a millisecond.
pub open spec fn latency(m: Measured) -> nat {
    if m.ops > 0 {
        in_parts(over(over(whole(m.nanos as nat), whole(m.ops as nat)), whole(1_000_000)), 1000)
    } else {
        0
    }
}

/// Whether the buffers of the system are left aside: where they may be used, or
/// nothing is known of the drive, they are used.
pub open spec fn unbuffered(p: PlanV, r: Run) -> bool {
    !p.buffered && r.drive_known
}

/// The text of a result.
pub open spec fn result_text(p: PlanV, r: Run) -> Seq<char> {
    let full = p.duration as nat * 1000;
    let half = p.duration as nat * 500;
    "{\"measured\":true,\"sequentialRead\":"@ + tenths_text(speed(r.seq_read.bytes, full))
        + ",\"sequentialWrite\":"@ + tenths_text(speed(r.seq_write.bytes, full))
        + ",\"randomRead\":"@ + tenths_text(speed(r.rand_read.bytes, half)) + ",\"randomWrite\":"@
        + tenths_text(speed(r.rand_write.bytes, half)) + ",\"iops\":"@ + dec(
        requests(r.rand_read.ops, half),
    ) + ",\"latency\":"@ + thousandths_text(latency(r.rand_read)) + ",\"blockSize\":"@ + dec(
        p.block as nat,
    ) + ",\"queueDepth\":"@ + dec(p.qd as nat) + ",\"threads\":"@ + dec(p.threads as nat)
        + ",\"duration\":"@ + dec(p.duration as nat) + ",\"ioMode\":\""@ + (if unbuffered(p, r) {
        "nobuf"@
    } else {
        "buf"@
    }) + "\",\"qdEffective\":"@ + dec(depth_of(p) as nat) + ",\"elapsedMs\":"@ + dec(
        r.elapsed_ms as nat,
    ) + "}"@
}

/// The outcome of a measurement: its text, or why there is none.
pub open spec fn outcome(args: Seq<Seq<char>>, r: Run) -> Result<Seq<char>, Seq<char>> {
    match plan_in(args) {
        Err(e) => Err(e),
        Ok(p) => if r.created {
            Ok(result_text(p, r))
        } else {
            Err("测试文件创建失败"@)
        },
    }
}

/// A failure as JSON.
pub open spec fn failure_text(message: Seq<char>) -> Seq<char> {
    "{\"error\":\""@ + escaped(message) + "\"}"@
}

/// A failure as JSON.
pub fn failure_json(message: &str) -> (out: String)
    ensures
        out@ == failure_text(message@),
{
    cat3("{\"error\":\"", json_escape(message).as_str(), "\"}")
}

fn speed_of(bytes: u64, seconds: u64) -> (out: String)
    requires
        2 <= seconds <= 16,
    ensures
        out@ == tenths_text(speed(bytes, seconds as nat * 1000)),
{
    proof {
        lemma_seconds(seconds as nat);
    }
    let b: u128 = near_whole(bytes as u128);
    let mib: Binary = near(b, 1_048_576);
    let x: Binary = scaled(mib, 1, seconds);
    proof {
        let b = whole(bytes as nat);
        lemma_over_whole(b, whole(1_048_576));
        lemma_over_whole(mib.view(), (seconds as nat, 1nat));
    }
    tenths(parts(x, 10))
}

fn latency_of(m: &Measured) -> (out: String)
    ensures
        out@ == thousandths_text(latency(*m)),
{
    if m.ops > 0 {
        let nanos: u128 = near_whole(m.nanos as u128);
        let ops: u128 = near_whole(m.ops as u128);
        let each: Binary = near(nanos, ops);
        let x: Binary = scaled(each, 1, 1_000_000);
        proof {
            lemma_over_whole(whole(m.nanos as nat), whole(m.ops as nat));
            lemma_over_whole(each.view(), whole(1_000_000));
        }
        thousandths(parts(x, 1000))
    } else {
        thousandths(0)
    }
}

fn rate_of(ops: u64, seconds: u64) -> (out: String)
    requires
        2 <= seconds <= 16,
    ensures
        out@ == dec(requests(ops, seconds as nat * 1000)),
{
    proof {
        lemma_seconds(seconds as nat);
    }
    let n: u128 = near_whole(ops as u128);
    let x: Binary = near(n, seconds as u128);
    proof {
        lemma_over_whole(whole(ops as nat), (seconds as nat, 1nat));
    }
    wide_decimal(parts(x, 1))
}

proof fn lemma_seconds(s: nat)
    requires
        2 <= s <= 16,
    ensures
        over(whole(s * 1000), whole(1000)) == (s, 1nat),
        whole(1_048_576) == (1_048_576nat, 1nat),
        whole(1_000_000) == (1_000_000nat, 1nat),
{
    assert(whole(s * 1000) == (s * 1000, 1nat));
    lemma_over_whole(whole(s * 1000), whole(1000));
    assert(s * 1000 / 1000 == s && (s * 1000) % 1000 == 0);
}

fn result_json(p: &Plan, r: &Run) -> (out: String)
    requires
        p.wf(),
    ensures
        out@ == result_text(p.view(), *r),
{
    let full: u64 = p.duration;
    let half: u64 = p.duration / 2;
    let mut s: String = "{\"measured\":true,\"sequentialRead\":".to_owned();
    s.append(speed_of(r.seq_read.bytes, full).as_str());
    s.append(",\"sequentialWrite\":");
    s.append(speed_of(r.seq_write.bytes, full).as_str());
    s.append(",\"randomRead\":");
    s.append(speed_of(r.rand_read.bytes, half).as_str());
    s.append(",\"randomWrite\":");
    s.append(speed_of(r.rand_write.bytes, half).as_str());
    s.append(",\"iops\":");
    s.append(rate_of(r.rand_read.ops, half).as_str());
    s.append(",\"latency\":");
    s.append(latency_of(&r.rand_read).as_str());
    s.append(",\"blockSize\":");
    s.append(decimal(p.block).as_str());
    s.append(",\"queueDepth\":");
    s.append(decimal(p.qd).as_str());
    s.append(",\"threads\":");
    s.append(decimal(p.threads).as_str());
    s.append(",\"duration\":");
    s.append(decimal(p.duration).as_str());
    s.append(",\"ioMode\":\"");
    s.append(
        if !p.buffered && r.drive_known {
            "nobuf"
        } else {
            "buf"
        },
    );
    s.append("\",\"qdEffective\":");
    s.append(decimal(p.depth()).as_str());
    s.append(",\"elapsedMs\":");
    s.append(decimal(r.elapsed_ms).as_str());
    s.append("}");
    s
}

/// The outcome of a measurement: its text, or why there is none.
pub fn diskbench_core(args: &Vec<String>, r: &Run) -> (out: Result<String, String>)
    ensures
        match out {
            Ok(t) => outcome(texts(args@), *r) == Ok::<Seq<char>, Seq<char>>(t@),
            Err(e) => outcome(texts(args@), *r) == Err::<Seq<char>, Seq<char>>(e@),
        },
{
    match bench_plan(args) {
        Err(e) => Err(e),
        Ok(p) => if r.created {
            Ok(result_json(&p, r))
        } else {
            Err("测试文件创建失败".to_owned())
        },
    }
}

/// The outcome of a measurement as JSON, a failure as well.
pub fn diskbench_json(args: &Vec<String>, r: &Run) -> (out: String)
    ensures
        out@ == (match outcome(texts(args@), *r) {
            Ok(t) => t,
            Err(e) => failure_text(e),
        }),
{
    match diskbench_core(args, r) {
        Ok(t) => t,
        Err(e) => failure_json(e.as_str()),
    }
}

/// The exit code and the last line of a measurement.
pub fn run_diskbench(args: &Vec<String>, r: &Run) -> (out: (i32, String))
    ensures
        match outcome(texts(args@), *r) {
            Ok(t) => out.0 == 0 && out.1@ == t,
            Err(e) => out.0 == 2 && out.1@ == e,
        },
{
    match diskbench_core(args, r) {
        Ok(t) => (0, t),
        Err(e) => (2, e),
    }
}

// -------------------------------------------------------------------------------- laws

proof fn lemma_exchanged(map: Seq<u64>, i: int, j: int)
    requires
        0 <= i < map.len(),
        0 <= j < map.len(),
    ensures
        exchanged(map, i, j).to_multiset() == map.to_multiset(),
        exchanged(map, i, j).len() == map.len(),
{
    broadcast use vstd::seq_lib::group_to_multiset_ensures;

    let a = map.update(i, map[j]);
    vstd::seq_lib::to_multiset_update(map, i, map[j]);
    vstd::seq_lib::to_multiset_update(a, j, map[i]);
    assert(exchanged(map, i, j).to_multiset() =~= map.to_multiset());
}

proof fn lemma_shuffled(map: Seq<u64>, s: u64, i: int)
    requires
        i < map.len(),
    ensures
        shuffled(map, s, i).to_multiset() == map.to_multiset(),
        shuffled(map, s, i).len() == map.len(),
    decreases i,
{
    if i > 0 {
        let t = next_state(s);
        let j = t as int % (i + 1);
        lemma_exchanged(map, i, j);
        lemma_shuffled(exchanged(map, i, j), t, i - 1);
    }
}

/// Every block of the file is accessed once before any is accessed again.
pub proof fn law_offsets_permuted(file_size: u64, io_size: u64)
    requires
        0 < io_size <= file_size,
    ensures
        offsets(file_size, io_size).to_multiset() == in_order(
            file_size as int / io_size as int,
            io_size,
        ).to_multiset(),
        offsets(file_size, io_size).len() == file_size as int / io_size as int,
{
    let n = file_size as int / io_size as int;
    assert(n >= 0) by (nonlinear_arith)
        requires
            n == file_size as int / io_size as int,
            io_size > 0,
    ;
    lemma_shuffled(in_order(n, io_size), first_state(n as u64), n - 1);
}

/// The buffers of the requests that a thread keeps in flight stay within their
/// limit, and at least one request is in flight.
pub proof fn law_depth_fits(p: PlanV)
    requires
        block_known(p.block),
    ensures
        1 <= depth_of(p),
        depth_of(p) * p.block <= BUF_CAP_PER_THREAD,
{
}

} // verus!
