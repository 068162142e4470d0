//! Figures about the machine, the traffic of its network adapters, and freeing
//! memory.

use crate::bench::{arg_number, arg_value, failure_json, failure_text, number_of, value_of};
use crate::double::{in_parts, lemma_over_whole, near, near_whole, over, parts, times, whole};
use crate::json::{escaped, json_escape};
use crate::numbers::{signed_dec, signed_decimal, tenths, tenths_text, wide_decimal};
use crate::text::{
    cap64, cat, cat3, dec, decimal, drop_empty, join, joined, lemma_texts_push, listed, nonempty,
    pieces, same, split, texts, trim, trimmed,
};
use std::collections::HashMap;
use vstd::prelude::*;
use vstd::std_specs::hash::group_hash_axioms;

verus! {

/// The text of the UTF-16 code units from `i` on: a unit that is no surrogate is a
/// character, a high and a low surrogate together are one, and a surrogate that stands
/// alone becomes the replacement character.
pub open spec fn utf16_from(units: Seq<u16>, i: int) -> Seq<char>
    decreases units.len() - i,
{
    if i < 0 || i >= units.len() {
        Seq::empty()
    } else {
        let a = units[i] as int;
        if a < 0xd800 || a > 0xdfff {
            seq![a as char] + utf16_from(units, i + 1)
        } else if a < 0xdc00 && i + 1 < units.len() && 0xdc00 <= units[i + 1] <= 0xdfff {
            seq![(0x10000 + (a - 0xd800) * 0x400 + (units[i + 1] - 0xdc00)) as char] + utf16_from(
                units,
                i + 2,
            )
        } else {
            seq!['\u{fffd}'] + utf16_from(units, i + 1)
        }
    }
}

/// The text of a sequence of UTF-16 code units.
pub open spec fn utf16_text(units: Seq<u16>) -> Seq<char> {
    utf16_from(units, 0)
}

/// Calls `String::from_utf16_lossy`, which decodes UTF-16 and puts the replacement
/// character where it is malformed, that is, in place of each unpaired surrogate.
#[verifier::external_body]
fn decode_utf16(units: &Vec<u16>) -> (out: String)
    ensures
        out@ == utf16_text(units@),
{
    String::from_utf16_lossy(units.as_slice())
}

/// The code units before the first zero.
pub open spec fn until_zero(buf: Seq<u16>, i: int) -> int
    decreases buf.len() - i,
{
    if i < 0 || i >= buf.len() || buf[i] == 0 {
        i
    } else {
        until_zero(buf, i + 1)
    }
}

/// The text in a buffer of code units, which ends at the first zero.
pub fn utf16_str(buf: &Vec<u16>) -> (out: String)
    ensures
        out@ == utf16_text(buf@.take(until_zero(buf@, 0))),
{
    let mut v: Vec<u16> = Vec::new();
    let mut i: usize = 0;
    assert(buf@.take(0) =~= v@);
    while i < buf.len() && buf[i] != 0
        invariant
            i <= buf@.len(),
            v@ == buf@.take(i as int),
            until_zero(buf@, 0) == until_zero(buf@, i as int),
        decreases buf@.len() - i,
    {
        v.push(buf[i]);
        i += 1;
        assert(buf@.take(i as int) =~= buf@.take(i - 1).push(buf@[i - 1]));
    }
    decode_utf16(&v)
}

// -------------------------------------------------------------------- processor times

/// The length of a record of processor times, in bytes.
pub const CPU_RECORD: usize = 48;

/// How many records are read at most.
pub const CPU_MAX: usize = 64;

/// The number that `n` bytes make, the lowest first.
pub open spec fn little_endian(buf: Seq<u8>, at: int, n: int) -> nat
    decreases n,
{
    if n <= 0 {
        0
    } else {
        buf[at] as nat + 256 * little_endian(buf, at + 1, n - 1)
    }
}

proof fn lemma_little_endian(buf: Seq<u8>, at: int)
    ensures
        little_endian(buf, at, 8) == buf[at] + 0x100 * (buf[at + 1] + 0x100 * (buf[at + 2] + 0x100
            * (buf[at + 3] + 0x100 * (buf[at + 4] + 0x100 * (buf[at + 5] + 0x100 * (buf[at + 6]
            + 0x100 * buf[at + 7])))))),
{
    reveal_with_fuel(little_endian, 9);
}

fn read_u64(buf: &Vec<u8>, at: usize) -> (out: u64)
    requires
        at + 8 <= buf@.len(),
        buf@.len() <= CPU_RECORD * CPU_MAX,
    ensures
        out == little_endian(buf@, at as int, 8),
{
    proof {
        lemma_little_endian(buf@, at as int);
    }
    let a: u64 = buf[at + 6] as u64 + 0x100 * (buf[at + 7] as u64);
    let b: u64 = buf[at + 4] as u64 + 0x100 * (buf[at + 5] as u64 + 0x100 * a);
    let c: u64 = buf[at + 2] as u64 + 0x100 * (buf[at + 3] as u64 + 0x100 * b);
    buf[at] as u64 + 0x100 * (buf[at + 1] as u64 + 0x100 * c)
}

/// How much longer than idle a processor ran in kernel mode.
pub open spec fn kernel_busy(kernel: nat, idle: nat) -> nat {
    if kernel > idle {
        (kernel - idle) as nat
    } else {
        0
    }
}

/// The times in which the first `n` processors were busy and idle. A record holds
/// the idle time, the time in kernel mode, which the idle time is a part of, and
/// the time in user mode.
pub open spec fn cpu_sums(buf: Seq<u8>, n: int) -> (nat, nat)
    decreases n,
{
    if n <= 0 {
        (0, 0)
    } else {
        let before = cpu_sums(buf, n - 1);
        let at = (n - 1) * CPU_RECORD;
        let idle = little_endian(buf, at, 8);
        (
            before.0 + kernel_busy(little_endian(buf, at + 8, 8), idle) + little_endian(
                buf,
                at + 16,
                8,
            ),
            before.1 + idle,
        )
    }
}

/// How many records a reply of the given length holds.
pub open spec fn cpu_count(len: u32) -> int {
    if len as int / CPU_RECORD as int <= CPU_MAX {
        len as int / CPU_RECORD as int
    } else {
        CPU_MAX as int
    }
}

/// The times in which the processors were busy and idle, from the reply of the
/// system: its first `len` bytes hold a record for each processor.
pub fn cpu_raw_times(buf: &Vec<u8>, len: u32) -> (out: (u64, u64))
    requires
        buf@.len() == CPU_RECORD * CPU_MAX,
    ensures
        out.0 == cap64(cpu_sums(buf@, cpu_count(len)).0),
        out.1 == cap64(cpu_sums(buf@, cpu_count(len)).1),
{
    let share: usize = (len / 48) as usize;
    let n: usize = if share <= CPU_MAX {
        share
    } else {
        CPU_MAX
    };
    let mut busy: u64 = 0;
    let mut idle: u64 = 0;
    let mut i: usize = 0;
    while i < n
        invariant
            i <= n <= CPU_MAX,
            buf@.len() == CPU_RECORD * CPU_MAX,
            busy == cap64(cpu_sums(buf@, i as int).0),
            idle == cap64(cpu_sums(buf@, i as int).1),
        decreases n - i,
    {
        let at: usize = i * CPU_RECORD;
        let idle_t: u64 = read_u64(buf, at);
        let kernel: u64 = read_u64(buf, at + 8);
        let user: u64 = read_u64(buf, at + 16);
        let extra: u64 = if kernel > idle_t {
            kernel - idle_t
        } else {
            0
        };
        idle = idle.saturating_add(idle_t);
        busy = busy.saturating_add(extra).saturating_add(user);
        i += 1;
    }
    (busy, idle)
}

// ------------------------------------------------------------------------- the overview

/// How long a machine has been up, in words.
pub open spec fn uptime_words(secs: nat) -> Seq<char> {
    let days = secs / 86400;
    let hours = secs % 86400 / 3600;
    let mins = secs % 3600 / 60;
    if days > 0 {
        dec(days) + " 天 "@ + dec(hours) + " 小时 "@ + dec(mins) + " 分钟"@
    } else if hours > 0 {
        dec(hours) + " 小时 "@ + dec(mins) + " 分钟"@
    } else {
        dec(mins) + " 分钟"@
    }
}

/// How long a machine has been up, in words.
pub fn uptime_text(tick_ms: u64) -> (out: String)
    ensures
        out@ == uptime_words(tick_ms as nat / 1000),
{
    let secs: u64 = tick_ms / 1000;
    let days: u64 = secs / 86400;
    let hours: u64 = secs % 86400 / 3600;
    let mins: u64 = secs % 3600 / 60;
    let mut s: String = String::new();
    assert(s@ =~= Seq::empty());
    if days > 0 {
        s.append(decimal(days).as_str());
        s.append(" 天 ");
    }
    if days > 0 || hours > 0 {
        s.append(decimal(hours).as_str());
        s.append(" 小时 ");
    }
    s.append(decimal(mins).as_str());
    s.append(" 分钟");
    assert(s@ =~= uptime_words(secs as nat));
    s
}

/// A disk of the machine.
#[derive(Debug)]
pub struct Disk {
    pub letter: char,
    pub label: Vec<u16>,
    pub total: u64,
    pub free: u64,
}

/// What is known of the machine at a moment.
#[derive(Debug)]
pub struct Machine {
    pub cpu: Option<(u64, u64)>,
    pub memory_total: u64,
    pub memory_free: u64,
    pub disks: Vec<Disk>,
    pub tick_ms: u64,
    pub processes: u32,
    pub caption: Option<String>,
    pub major: u32,
    pub minor: u32,
    pub build: u32,
    pub computer: String,
    pub user: String,
}

pub open spec fn used_of(total: u64, free: u64) -> nat {
    if total > free {
        (total - free) as nat
    } else {
        0
    }
}

/// The used part in tenths of a percent.
pub open spec fn used_share(total: u64, free: u64) -> nat {
    if total > 0 {
        in_parts(over(times(whole(used_of(total, free)), 100), whole(total as nat)), 10)
    } else {
        0
    }
}

/// The members that tell how much of something is used.
pub open spec fn space_text(total: u64, free: u64) -> Seq<char> {
    "\"total\":"@ + dec(total as nat) + ",\"free\":"@ + dec(free as nat) + ",\"used\":"@ + dec(
        used_of(total, free),
    ) + ",\"percent\":"@ + tenths_text(used_share(total, free)) + "}"@
}

fn space_json(total: u64, free: u64) -> (out: String)
    ensures
        out@ == space_text(total, free),
{
    let used: u64 = total.saturating_sub(free);
    let share: u128 = if total > 0 {
        let part: u128 = near_whole(used as u128);
        let hundred: u128 = near_whole(part * 100);
        let all: u128 = near_whole(total as u128);
        proof {
            lemma_over_whole((hundred as nat, 1nat), (all as nat, 1nat));
        }
        parts(near(hundred, all), 10)
    } else {
        0
    };
    let mut s: String = "\"total\":".to_owned();
    s.append(decimal(total).as_str());
    s.append(",\"free\":");
    s.append(decimal(free).as_str());
    s.append(",\"used\":");
    s.append(decimal(used).as_str());
    s.append(",\"percent\":");
    s.append(tenths(share).as_str());
    s.append("}");
    s
}

/// The text of a disk.
pub open spec fn disk_text(d: Disk) -> Seq<char> {
    "{\"name\":\""@ + seq![d.letter] + ":\",\"label\":\""@ + escaped(
        utf16_text(d.label@.take(until_zero(d.label@, 0))),
    ) + "\","@ + space_text(d.total, d.free)
}

pub open spec fn disk_texts(v: Seq<Disk>) -> Seq<Seq<char>> {
    Seq::new(v.len(), |i: int| disk_text(v[i]))
}

fn disk_json(d: &Disk) -> (out: String)
    ensures
        out@ == disk_text(*d),
{
    let mut s: String = "{\"name\":\"".to_owned();
    let ghost head = s@;
    s.push(d.letter);
    assert(s@ =~= head + seq![d.letter]);
    s.append(":\",\"label\":\"");
    s.append(json_escape(utf16_str(&d.label).as_str()).as_str());
    s.append("\",");
    s.append(space_json(d.total, d.free).as_str());
    s
}

/// The version of the system.
pub open spec fn version_words(m: Machine) -> Seq<char> {
    dec(m.major as nat) + "."@ + dec(m.minor as nat) + "."@ + dec(m.build as nat)
}

/// The name of the system.
pub open spec fn caption_of(m: Machine) -> Seq<char> {
    match m.caption {
        Some(c) => c@,
        None => "Windows"@,
    }
}

/// The text of what is known of the machine. The processor load is left open; it
/// follows from the times of two moments.
pub open spec fn metrics_text(m: Machine) -> Seq<char> {
    "{\"success\":true,\"cpu\":null,\"cpuRaw\":"@ + (match m.cpu {
        Some((busy, idle)) => "{\"busy\":"@ + dec(busy as nat) + ",\"idle\":"@ + dec(idle as nat)
            + "}"@,
        None => "null"@,
    }) + ",\"memory\":{"@ + space_text(m.memory_total, m.memory_free) + ",\"disks\":["@ + joined(
        disk_texts(m.disks@),
        ","@,
    ) + "],\"uptime\":\""@ + escaped(uptime_words(m.tick_ms as nat / 1000)) + "\",\"processes\":"@
        + dec(m.processes as nat) + ",\"system\":{\"caption\":\""@ + escaped(caption_of(m))
        + "\",\"version\":\""@ + escaped(version_words(m)) + "\",\"build\":\""@ + escaped(
        dec(m.build as nat),
    ) + "\",\"computerName\":\""@ + escaped(m.computer@) + "\",\"userName\":\""@ + escaped(m.user@)
        + "\"}}"@
}

/// What is known of the machine as one line of JSON.
pub fn ov_metrics_json(m: &Machine) -> (out: String)
    ensures
        out@ == metrics_text(*m),
{
    let mut disks: Vec<String> = Vec::new();
    let mut i: usize = 0;
    assert(texts(disks@) =~= disk_texts(m.disks@).take(0));
    while i < m.disks.len()
        invariant
            i <= m.disks@.len(),
            texts(disks@) == disk_texts(m.disks@).take(i as int),
        decreases m.disks@.len() - i,
    {
        let d: String = disk_json(&m.disks[i]);
        proof {
            lemma_texts_push(disks@, d);
        }
        let ghost before = texts(disks@);
        disks.push(d);
        i += 1;
        assert(texts(disks@) =~= before.push(d@));
        assert(disk_texts(m.disks@).take(i as int) =~= disk_texts(m.disks@).take(i - 1).push(
            disk_texts(m.disks@)[i - 1],
        ));
    }
    assert(disk_texts(m.disks@).take(m.disks@.len() as int) =~= disk_texts(m.disks@));
    let mut version: String = decimal(m.major as u64);
    version.append(".");
    version.append(decimal(m.minor as u64).as_str());
    version.append(".");
    version.append(decimal(m.build as u64).as_str());
    let mut s: String = "{\"success\":true,\"cpu\":null,\"cpuRaw\":".to_owned();
    let raw: String = match m.cpu {
        Some((busy, idle)) => {
            let mut r: String = "{\"busy\":".to_owned();
            r.append(decimal(busy).as_str());
            r.append(",\"idle\":");
            r.append(decimal(idle).as_str());
            r.append("}");
            r
        },
        None => "null".to_owned(),
    };
    s.append(raw.as_str());
    s.append(",\"memory\":{");
    s.append(space_json(m.memory_total, m.memory_free).as_str());
    s.append(",\"disks\":[");
    s.append(join(&disks, ",").as_str());
    s.append("],\"uptime\":\"");
    s.append(json_escape(uptime_text(m.tick_ms).as_str()).as_str());
    s.append("\",\"processes\":");
    s.append(decimal(m.processes as u64).as_str());
    s.append(",\"system\":{\"caption\":\"");
    let caption: String = match &m.caption {
        Some(c) => c.clone(),
        None => "Windows".to_owned(),
    };
    s.append(json_escape(caption.as_str()).as_str());
    s.append("\",\"version\":\"");
    s.append(json_escape(version.as_str()).as_str());
    s.append("\",\"build\":\"");
    s.append(json_escape(decimal(m.build as u64).as_str()).as_str());
    s.append("\",\"computerName\":\"");
    s.append(json_escape(m.computer.as_str()).as_str());
    s.append("\",\"userName\":\"");
    s.append(json_escape(m.user.as_str()).as_str());
    s.append("\"}}");
    s
}

// -------------------------------------------------------------------- network traffic

/// A row of the system's table of network interfaces.
#[derive(Debug)]
pub struct IfRow {
    pub oper_status: u32,
    pub if_type: u32,
    pub flags: u8,
    pub in_octets: u64,
    pub out_octets: u64,
    pub index: u32,
    pub alias: Vec<u16>,
    pub description: Vec<u16>,
}

/// Whether a row is about a physical adapter that is up: wired or wireless, of
/// hardware, and no filter.
pub open spec fn physical(r: IfRow) -> bool {
    r.oper_status == 1 && (r.if_type == 6 || r.if_type == 71) && r.flags % 2 == 1 && r.flags / 2
        % 2 == 0
}

fn is_physical(r: &IfRow) -> (out: bool)
    ensures
        out == physical(*r),
{
    r.oper_status == 1 && (r.if_type == 6 || r.if_type == 71) && r.flags % 2 == 1 && r.flags / 2 % 2
        == 0
}

/// What is known of each adapter from the frame before: the bytes received, the
/// bytes sent, and when.
pub type Baseline = Map<u32, (u64, u64, u64)>;

/// Bytes in a second.
pub open spec fn rate(now: u64, before: u64, t: u64, pt: u64) -> nat {
    let ms = if t > pt {
        (t - pt) as nat
    } else {
        1
    };
    let n = if now > before {
        (now - before) as nat
    } else {
        0
    };
    in_parts(over(times(whole(n), 1000), whole(ms)), 1)
}

/// The text of an adapter of which there was a frame before.
pub open spec fn adapter_text(r: IfRow, prev: (u64, u64, u64), now: u64) -> Seq<char> {
    "{\"name\":\""@ + escaped(utf16_text(r.alias@.take(until_zero(r.alias@, 0))))
        + "\",\"desc\":\""@ + escaped(
        utf16_text(r.description@.take(until_zero(r.description@, 0))),
    ) + "\",\"up\":"@ + dec(rate(r.out_octets, prev.1, now, prev.2)) + ",\"down\":"@ + dec(
        rate(r.in_octets, prev.0, now, prev.2),
    ) + ",\"ifIndex\":"@ + dec(r.index as nat) + "}"@
}

/// What is known after the first `n` rows of a frame.
pub open spec fn after_rows(prev: Baseline, rows: Seq<IfRow>, now: u64, n: int) -> Baseline
    decreases n,
{
    if n <= 0 {
        prev
    } else {
        let before = after_rows(prev, rows, now, n - 1);
        let r = rows[n - 1];
        if physical(r) {
            before.insert(r.index, (r.in_octets, r.out_octets, now))
        } else {
            before
        }
    }
}

/// What the first `n` rows of a frame say. Each is held against what was known before the
/// frame.
pub open spec fn row_texts(prev: Baseline, rows: Seq<IfRow>, now: u64, n: int) -> Seq<Seq<char>>
    decreases n,
{
    if n <= 0 {
        Seq::empty()
    } else {
        let before = row_texts(prev, rows, now, n - 1);
        let r = rows[n - 1];
        if physical(r) && prev.contains_key(r.index) {
            before.push(adapter_text(r, prev[r.index], now))
        } else {
            before
        }
    }
}

/// The line of a frame.
pub open spec fn frame_text(now: u64, adapters: Seq<Seq<char>>) -> Seq<char> {
    "{\"t\":"@ + dec(now as nat) + ",\"adapters\":["@ + joined(adapters, ","@) + "]}"@
}

fn rate_of(now: u64, before: u64, t: u64, pt: u64) -> (out: String)
    ensures
        out@ == dec(rate(now, before, t, pt)),
{
    let ms: u64 = if t > pt {
        t - pt
    } else {
        1
    };
    let n: u64 = now.saturating_sub(before);
    let bytes: u128 = near_whole(n as u128);
    let thousand: u128 = near_whole(bytes * 1000);
    let time: u128 = near_whole(ms as u128);
    proof {
        lemma_over_whole((thousand as nat, 1nat), (time as nat, 1nat));
    }
    wide_decimal(parts(near(thousand, time), 1))
}

/// Follows the traffic of the network adapters from frame to frame.
#[derive(Debug)]
pub struct NetSampler {
    prev: HashMap<u32, (u64, u64, u64)>,
}

impl NetSampler {
    /// What is known from the frame before.
    pub closed spec fn view(self) -> Baseline {
        self.prev@
    }

    /// A sampler that has seen no frame.
    pub fn new() -> (out: Self)
        ensures
            out.view() == Map::<u32, (u64, u64, u64)>::empty(),
    {
        broadcast use group_hash_axioms;

        NetSampler { prev: HashMap::new() }
    }

    /// The line of a frame, given the rows of the system's table where it could be
    /// read. An adapter is in it from its second frame on; where there is none,
    /// there is no line.
    pub fn sample_frame(&mut self, table: &Option<Vec<IfRow>>, now: u64) -> (out: Option<String>)
        ensures
            match *table {
                None => out is None && final(self).view() == old(self).view(),
                Some(rows) => {
                    let n = rows@.len() as int;
                    let said = row_texts(old(self).view(), rows@, now, n);
                    &&& final(self).view() == after_rows(old(self).view(), rows@, now, n)
                    &&& match out {
                        Some(line) => said.len() > 0 && line@ == frame_text(now, said),
                        None => said.len() == 0,
                    }
                },
            },
    {
        broadcast use group_hash_axioms;

        let rows: &Vec<IfRow> = match table {
            None => {
                return None;
            },
            Some(r) => r,
        };
        let ghost start = self.view();
        let mut adapters: Vec<String> = Vec::new();
        let mut i: usize = 0;
        assert(texts(adapters@) =~= Seq::empty());
        while i < rows.len()
            invariant
                i <= rows@.len(),
                self.view() == start,
                texts(adapters@) == row_texts(start, rows@, now, i as int),
            decreases rows@.len() - i,
        {
            broadcast use group_hash_axioms;

            let r: &IfRow = &rows[i];
            if is_physical(r) {
                let ghost before = texts(adapters@);
                match self.prev.get(&r.index) {
                    Some(p) => {
                        let mut s: String = "{\"name\":\"".to_owned();
                        s.append(json_escape(utf16_str(&r.alias).as_str()).as_str());
                        s.append("\",\"desc\":\"");
                        s.append(json_escape(utf16_str(&r.description).as_str()).as_str());
                        s.append("\",\"up\":");
                        s.append(rate_of(r.out_octets, p.1, now, p.2).as_str());
                        s.append(",\"down\":");
                        s.append(rate_of(r.in_octets, p.0, now, p.2).as_str());
                        s.append(",\"ifIndex\":");
                        s.append(decimal(r.index as u64).as_str());
                        s.append("}");
                        proof {
                            lemma_texts_push(adapters@, s);
                        }
                        adapters.push(s);
                        assert(texts(adapters@) =~= before.push(s@));
                    },
                    None => {},
                }
            }
            i += 1;
        }
        let mut k: usize = 0;
        while k < rows.len()
            invariant
                k <= rows@.len(),
                self.view() == after_rows(start, rows@, now, k as int),
            decreases rows@.len() - k,
        {
            broadcast use group_hash_axioms;

            let r: &IfRow = &rows[k];
            if is_physical(r) {
                self.prev.insert(r.index, (r.in_octets, r.out_octets, now));
            }
            k += 1;
        }
        if adapters.len() == 0 {
            assert(texts(adapters@).len() == 0);
            return None;
        }
        assert(texts(adapters@).len() > 0);
        let mut line: String = cat3("{\"t\":", decimal(now).as_str(), ",\"adapters\":[");
        line.append(join(&adapters, ",").as_str());
        line.append("]}");
        Some(line)
    }
}

/// How long to wait between two frames, in milliseconds.
pub open spec fn interval_of(args: Seq<Seq<char>>) -> u64 {
    let n = number_of(args, "interval"@, 1000);
    if n < 200 {
        200
    } else if n > 10_000 {
        10_000
    } else {
        n
    }
}

/// How long to wait between two frames, in milliseconds.
pub fn sample_interval(args: &Vec<String>) -> (out: u64)
    ensures
        out == interval_of(texts(args@)),
{
    let n: u64 = arg_number(args, "interval", 1000);
    if n < 200 {
        200
    } else if n > 10_000 {
        10_000
    } else {
        n
    }
}

// -------------------------------------------------------------------- freeing memory

/// A kind of memory that can be freed: its name in requests, the class and the
/// value of the call that frees it, and its name in words.
#[derive(Debug, Clone, Copy)]
pub struct MemItem {
    pub id: &'static str,
    pub class: u32,
    pub value: u64,
    pub label: &'static str,
}

/// How many kinds of memory can be freed.
pub const MEM_ITEM_COUNT: usize = 5;

/// The names of the kinds of memory, in the order in which they are freed.
pub open spec fn mem_ids() -> Seq<Seq<char>> {
    seq!["workingSet"@, "modified"@, "standby"@, "standbyPriority0"@, "combine"@]
}

pub open spec fn mem_labels() -> Seq<Seq<char>> {
    seq!["工作集"@, "修改列表"@, "备用列表"@, "低优先级备用列表"@, "合并物理内存页"@]
}

/// The class and the value of the call that frees each kind of memory.
pub open spec fn mem_calls() -> Seq<(u32, u64)> {
    seq![(80u32, 1u64), (80u32, 2u64), (80u32, 3u64), (80u32, 4u64), (87u32, 0u64)]
}

/// A kind of memory.
pub open spec fn is_mem_item(m: MemItem, k: int) -> bool {
    m.id@ == mem_ids()[k] && m.label@ == mem_labels()[k] && (m.class, m.value) == mem_calls()[k]
}

fn mem_item(k: usize) -> (out: MemItem)
    requires
        k < MEM_ITEM_COUNT,
    ensures
        is_mem_item(out, k as int),
{
    if k == 0 {
        MemItem { id: "workingSet", class: 80, value: 1, label: "工作集" }
    } else if k == 1 {
        MemItem { id: "modified", class: 80, value: 2, label: "修改列表" }
    } else if k == 2 {
        MemItem { id: "standby", class: 80, value: 3, label: "备用列表" }
    } else if k == 3 {
        MemItem { id: "standbyPriority0", class: 80, value: 4, label: "低优先级备用列表" }
    } else {
        MemItem { id: "combine", class: 87, value: 0, label: "合并物理内存页" }
    }
}

/// Why a request among the first `n` names is refused: the first name that is not
/// one of a kind of memory.
pub open spec fn unknown_id(want: Seq<Seq<char>>, i: int) -> Option<Seq<char>>
    decreases want.len() - i,
{
    if i < 0 || i >= want.len() {
        None
    } else if !mem_ids().contains(want[i]) {
        Some("非法区域 id: "@ + want[i])
    } else {
        unknown_id(want, i + 1)
    }
}

/// Why a request is refused.
pub open spec fn mem_refusal(want: Seq<Seq<char>>) -> Option<Seq<char>> {
    if want.len() == 0 {
        Some("未选择要清理的内存区域"@)
    } else {
        unknown_id(want, 0)
    }
}

/// Those of the first `k` kinds of memory that are asked for.
pub open spec fn mem_chosen(want: Seq<Seq<char>>, k: int) -> Seq<int>
    decreases k,
{
    if k <= 0 {
        Seq::empty()
    } else if want.contains(mem_ids()[k - 1]) {
        mem_chosen(want, k - 1).push(k - 1)
    } else {
        mem_chosen(want, k - 1)
    }
}

/// The kinds of memory that are asked for.
pub open spec fn mem_all(want: Seq<Seq<char>>) -> Seq<int> {
    mem_chosen(want, MEM_ITEM_COUNT as int)
}

fn is_mem_id(id: &str) -> (out: bool)
    ensures
        out == mem_ids().contains(id@),
{
    let mut k: usize = 0;
    while k < MEM_ITEM_COUNT
        invariant
            k <= MEM_ITEM_COUNT,
            forall|j: int| 0 <= j < k ==> mem_ids()[j] != id@,
        decreases MEM_ITEM_COUNT - k,
    {
        if same(mem_item(k).id, id) {
            assert(mem_ids()[k as int] == id@);
            return true;
        }
        k += 1;
    }
    false
}

/// The kinds of memory that are asked for, in the order in which they are freed,
/// or why the request is refused.
pub fn mem_plan(want: &Vec<String>) -> (out: Result<Vec<MemItem>, String>)
    ensures
        match out {
            Ok(v) => mem_refusal(texts(want@)) is None && v@.len() == mem_all(texts(want@)).len()
                && forall|i: int|
                0 <= i < v@.len() ==> is_mem_item(#[trigger] v@[i], mem_all(texts(want@))[i]),
            Err(e) => mem_refusal(texts(want@)) == Some(e@),
        },
{
    let ghost w = texts(want@);
    if want.len() == 0 {
        return Err("未选择要清理的内存区域".to_owned());
    }
    let mut i: usize = 0;
    while i < want.len()
        invariant
            i <= want@.len(),
            w == texts(want@),
            unknown_id(w, 0) == unknown_id(w, i as int),
            want@.len() > 0,
        decreases want@.len() - i,
    {
        assert(w[i as int] == want@[i as int]@);
        if !is_mem_id(want[i].as_str()) {
            return Err(cat("非法区域 id: ", want[i].as_str()));
        }
        i += 1;
    }
    let mut out: Vec<MemItem> = Vec::new();
    let mut k: usize = 0;
    while k < MEM_ITEM_COUNT
        invariant
            k <= MEM_ITEM_COUNT,
            w == texts(want@),
            out@.len() == mem_chosen(w, k as int).len(),
            forall|x: int|
                0 <= x < out@.len() ==> is_mem_item(
                    #[trigger] out@[x],
                    mem_chosen(w, k as int)[x],
                ),
        decreases MEM_ITEM_COUNT - k,
    {
        let m: MemItem = mem_item(k);
        let ghost before = out@;
        if listed(want, m.id) {
            out.push(m);
        }
        k += 1;
        assert forall|x: int| 0 <= x < out@.len() implies is_mem_item(
            #[trigger] out@[x],
            mem_chosen(w, k as int)[x],
        ) by {
            if x < before.len() {
                assert(is_mem_item(before[x], mem_chosen(w, k - 1)[x]));
            }
        }
    }
    Ok(out)
}

/// What came of freeing one kind of memory.
pub open spec fn freed_text(k: int, status: i32) -> Seq<char> {
    "{\"id\":\""@ + mem_ids()[k] + "\",\"name\":\""@ + mem_labels()[k] + "\",\"ok\":"@ + (if status
        == 0 {
        "true"@
    } else {
        "false"@
    }) + ",\"status\":"@ + signed_dec(status as int) + "}"@
}

pub open spec fn freed_texts(chosen: Seq<int>, statuses: Seq<i32>) -> Seq<Seq<char>> {
    Seq::new(chosen.len(), |i: int| freed_text(chosen[i], statuses[i]))
}

/// The text of a result: the free memory before and after, how much more it is,
/// and what came of each kind of memory.
pub open spec fn memory_text(
    want: Seq<Seq<char>>,
    before: u64,
    after: u64,
    statuses: Seq<i32>,
) -> Seq<char> {
    "{\"before\":"@ + dec(before as nat) + ",\"after\":"@ + dec(after as nat) + ",\"freed\":"@
        + dec(used_of(after, before)) + ",\"results\":["@ + joined(
        freed_texts(mem_all(want), statuses),
        ","@,
    ) + "]}"@
}

/// The outcome of freeing memory, given the free memory before and after and the
/// status that each call of the plan returned: the text of the result, or why the
/// request is refused.
pub fn mem_clean_core(want: &Vec<String>, before: u64, after: u64, statuses: &Vec<i32>) -> (out:
    Result<String, String>)
    requires
        mem_refusal(texts(want@)) is None ==> statuses@.len() == mem_all(texts(want@)).len(),
    ensures
        match out {
            Ok(t) => mem_refusal(texts(want@)) is None && t@ == memory_text(
                texts(want@),
                before,
                after,
                statuses@,
            ),
            Err(e) => mem_refusal(texts(want@)) == Some(e@),
        },
{
    let ghost w = texts(want@);
    let plan: Vec<MemItem> = match mem_plan(want) {
        Err(e) => {
            return Err(e);
        },
        Ok(p) => p,
    };
    let ghost goal = freed_texts(mem_all(w), statuses@);
    let mut list: Vec<String> = Vec::new();
    let mut i: usize = 0;
    assert(texts(list@) =~= goal.take(0));
    while i < plan.len()
        invariant
            i <= plan@.len(),
            w == texts(want@),
            goal == freed_texts(mem_all(w), statuses@),
            plan@.len() == mem_all(w).len(),
            statuses@.len() == plan@.len(),
            forall|x: int|
                0 <= x < plan@.len() ==> is_mem_item(#[trigger] plan@[x], mem_all(w)[x]),
            texts(list@) == goal.take(i as int),
        decreases plan@.len() - i,
    {
        let m: MemItem = plan[i];
        let status: i32 = statuses[i];
        assert(is_mem_item(plan@[i as int], mem_all(w)[i as int]));
        let mut s: String = cat3("{\"id\":\"", m.id, "\",\"name\":\"");
        s.append(m.label);
        s.append("\",\"ok\":");
        s.append(
            if status == 0 {
                "true"
            } else {
                "false"
            },
        );
        s.append(",\"status\":");
        s.append(signed_decimal(status).as_str());
        s.append("}");
        proof {
            lemma_texts_push(list@, s);
        }
        let ghost had = texts(list@);
        list.push(s);
        assert(texts(list@) =~= had.push(s@));
        i += 1;
        assert(goal.take(i as int) =~= goal.take(i - 1).push(goal[i - 1]));
    }
    assert(goal.take(plan@.len() as int) =~= goal);
    let mut t: String = cat3("{\"before\":", decimal(before).as_str(), ",\"after\":");
    t.append(decimal(after).as_str());
    t.append(",\"freed\":");
    t.append(decimal(after.saturating_sub(before)).as_str());
    t.append(",\"results\":[");
    t.append(join(&list, ",").as_str());
    t.append("]}");
    Ok(t)
}

/// The outcome of freeing memory as JSON, a refusal as well.
pub fn mem_clean_json(items: &Vec<String>, before: u64, after: u64, statuses: &Vec<i32>) -> (out:
    String)
    requires
        mem_refusal(texts(items@)) is None ==> statuses@.len() == mem_all(texts(items@)).len(),
    ensures
        out@ == (match mem_refusal(texts(items@)) {
            None => memory_text(texts(items@), before, after, statuses@),
            Some(e) => failure_text(e),
        }),
{
    match mem_clean_core(items, before, after, statuses) {
        Ok(t) => t,
        Err(e) => failure_json(e.as_str()),
    }
}

/// The first `n` of a list of texts, without the white space around them.
pub open spec fn trimmed_all(list: Seq<Seq<char>>) -> Seq<Seq<char>> {
    Seq::new(list.len(), |i: int| trimmed(list[i]))
}

/// The names behind `--items`, where it is there.
pub open spec fn items_in(args: Seq<Seq<char>>) -> Option<Seq<Seq<char>>> {
    match value_of(args, "items"@) {
        Some(v) => Some(nonempty(trimmed_all(pieces(v, ',', ',')))),
        None => None,
    }
}

/// The names behind `--items`, where it is there.
pub fn mem_items_arg(args: &Vec<String>) -> (out: Result<Vec<String>, String>)
    ensures
        match out {
            Ok(v) => items_in(texts(args@)) == Some(texts(v@)),
            Err(e) => items_in(texts(args@)) is None && e@ == "缺少 --items"@,
        },
{
    match arg_value(args, "items") {
        None => Err("缺少 --items".to_owned()),
        Some(v) => {
            let parts: Vec<String> = split(v, ',', ',');
            let ghost goal = trimmed_all(texts(parts@));
            let mut list: Vec<String> = Vec::new();
            let mut i: usize = 0;
            assert(texts(list@) =~= goal.take(0));
            while i < parts.len()
                invariant
                    i <= parts@.len(),
                    goal == trimmed_all(texts(parts@)),
                    texts(list@) == goal.take(i as int),
                decreases parts@.len() - i,
            {
                let t: String = trim(parts[i].as_str());
                proof {
                    lemma_texts_push(list@, t);
                }
                let ghost had = texts(list@);
                list.push(t);
                assert(texts(list@) =~= had.push(t@));
                i += 1;
                assert(goal.take(i as int) =~= goal.take(i - 1).push(goal[i - 1]));
            }
            assert(goal.take(parts@.len() as int) =~= goal);
            Ok(drop_empty(list))
        },
    }
}

/// The exit code and the line of `mem-clean`: a request that is refused is answered with the
/// plain reason.
pub open spec fn mem_clean_line(
    args: Seq<Seq<char>>,
    before: u64,
    after: u64,
    statuses: Seq<i32>,
) -> (i32, Seq<char>) {
    match items_in(args) {
        None => (2, "缺少 --items"@),
        Some(want) => match mem_refusal(want) {
            Some(e) => (2, e),
            None => (0, memory_text(want, before, after, statuses)),
        },
    }
}

/// The calls of `mem-clean`, in their order; none where the request is refused.
pub fn mem_clean_calls(args: &Vec<String>) -> (out: Vec<MemItem>)
    ensures
        match items_in(texts(args@)) {
            Some(want) => if mem_refusal(want) is None {
                &&& out@.len() == mem_all(want).len()
                &&& forall|x: int|
                    0 <= x < out@.len() ==> is_mem_item(#[trigger] out@[x], mem_all(want)[x])
            } else {
                out@.len() == 0
            },
            None => out@.len() == 0,
        },
{
    match mem_items_arg(args) {
        Ok(want) => match mem_plan(&want) {
            Ok(p) => p,
            Err(_) => Vec::new(),
        },
        Err(_) => Vec::new(),
    }
}

/// The exit code and the line of `mem-clean`, given the free memory before and after and the
/// status that each of its calls returned.
pub fn run_mem_clean(args: &Vec<String>, before: u64, after: u64, statuses: &Vec<i32>) -> (out: (
    i32,
    String,
))
    requires
        items_in(texts(args@)) matches Some(want) ==> mem_refusal(want) is None ==> statuses@.len()
            == mem_all(want).len(),
    ensures
        (out.0, out.1@) == mem_clean_line(texts(args@), before, after, statuses@),
{
    match mem_items_arg(args) {
        Err(e) => (2, e),
        Ok(want) => match mem_clean_core(&want, before, after, statuses) {
            Ok(t) => (0, t),
            Err(e) => (2, e),
        },
    }
}

// -------------------------------------------------------------------------------- laws

/// No adapter is reported in the first frame, whatever the table holds.
pub proof fn law_first_frame_is_silent(rows: Seq<IfRow>, now: u64, n: int)
    requires
        0 <= n <= rows.len(),
    ensures
        row_texts(Map::empty(), rows, now, n).len() == 0,
    decreases n,
{
    if n > 0 {
        law_first_frame_is_silent(rows, now, n - 1);
    }
}

/// An adapter that was not known before a frame is not reported in it.
pub proof fn law_unknown_is_silent(prev: Baseline, rows: Seq<IfRow>, now: u64, n: int)
    requires
        0 <= n <= rows.len(),
        forall|i: int|
            0 <= i < n && physical(#[trigger] rows[i]) ==> !prev.contains_key(rows[i].index),
    ensures
        row_texts(prev, rows, now, n).len() == 0,
    decreases n,
{
    if n > 0 {
        law_unknown_is_silent(prev, rows, now, n - 1);
        assert(physical(rows[n - 1]) ==> !prev.contains_key(rows[n - 1].index));
    }
}

proof fn lemma_known(want: Seq<Seq<char>>, i: int)
    requires
        0 <= i <= want.len(),
        unknown_id(want, i) is None,
    ensures
        forall|k: int| i <= k < want.len() ==> mem_ids().contains(#[trigger] want[k]),
    decreases want.len() - i,
{
    if i < want.len() {
        lemma_known(want, i + 1);
    }
}

/// A request that is not refused asks for kinds of memory only.
pub proof fn law_only_known_memory(want: Seq<Seq<char>>)
    requires
        mem_refusal(want) is None,
    ensures
        want.len() > 0,
        forall|i: int| 0 <= i < want.len() ==> mem_ids().contains(#[trigger] want[i]),
{
    lemma_known(want, 0);
}

} // verus!
