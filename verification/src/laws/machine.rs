//! What is told of the machine, of its adapters and of the memory that was freed.

use crate::double::{lemma_over_whole, over, times, whole, TOP};
use crate::laws::count::added;
use crate::laws::text::{
    lemma_joined_stands, lemma_stands, lemma_stands_in, lemma_stands_last, lemma_stands_on, stands,
};
use crate::numbers::tenths_text;
use crate::perf::{
    adapter_text, after_rows, cpu_sums, disk_text, disk_texts, frame_text, freed_text, freed_texts,
    interval_of, is_mem_item, little_endian, mem_all, mem_chosen, mem_ids, mem_refusal, memory_text,
    metrics_text, physical, rate, row_texts, space_text, unknown_id, uptime_words, used_of,
    used_share, Baseline, Disk, IfRow, Machine, MemItem,
};
use crate::text::{dec, joined};
use vstd::prelude::*;

verus! {

// ------------------------------------------------------------------------- traffic

/// A rate is the growth in a second: nothing where nothing was added, the growth itself over
/// one second, and in general what makes the growth in the time that has passed.
pub proof fn law_rate_is_growth(now: u64, before: u64, t: u64, pt: u64, per_second: nat)
    requires
        t > pt,
        now >= before,
        (now - before) * 1000 <= TOP,
        (now - before) * 1000 == per_second * (t - pt),
        t - pt <= TOP,
    ensures
        rate(now, before, t, pt) == per_second,
        rate(before, now, t, pt) == 0,
{
    let n = (now - before) as nat;
    let ms = (t - pt) as nat;
    assert(n % 1 == 0 && n / 1 == n && ms % 1 == 0 && ms / 1 == ms);
    assert((n * 1000) % 1 == 0 && (n * 1000) / 1 == n * 1000);
    assert(whole(n) == (n, 1nat) && whole(ms) == (ms, 1nat));
    assert(times(whole(n), 1000) == (n * 1000, 1nat));
    lemma_over_whole((n * 1000, 1nat), (ms, 1nat));
    vstd::arithmetic::div_mod::lemma_fundamental_div_mod_converse(
        (n * 1000) as int,
        ms as int,
        per_second as int,
        0,
    );
    assert(per_second <= n * 1000) by (nonlinear_arith)
        requires
            n * 1000 == per_second * ms,
            ms >= 1,
    ;
    assert(per_second * 1 == per_second);
    assert(per_second % 1 == 0 && per_second / 1 == per_second);
    if now > before {
        lemma_zero_rate(ms);
    } else {
        lemma_zero_rate(ms);
    }
}

proof fn lemma_zero_rate(ms: nat)
    requires
        0 < ms <= TOP,
    ensures
        crate::double::in_parts(over(times(whole(0), 1000), whole(ms)), 1) == 0,
{
    assert(ms % 1 == 0 && ms / 1 == ms);
    assert(whole(0) == (0nat, 1nat) && whole(ms) == (ms, 1nat));
    assert(times(whole(0), 1000) == (0nat, 1nat));
    lemma_over_whole((0nat, 1nat), (ms, 1nat));
    vstd::arithmetic::div_mod::lemma_fundamental_div_mod_converse(0, ms as int, 0, 0);
}

/// What is told of an adapter: as sent, what the bytes sent have grown by, as received, what
/// the bytes received have, each by itself, and its number.
pub proof fn law_adapter_tells(r: IfRow, prev: (u64, u64, u64), now: u64)
    ensures
        stands(
            adapter_text(r, prev, now),
            "\"up\":"@ + dec(rate(r.out_octets, prev.1, now, prev.2)) + ","@,
        ),
        stands(
            adapter_text(r, prev, now),
            ",\"down\":"@ + dec(rate(r.in_octets, prev.0, now, prev.2)) + ","@,
        ),
        stands(adapter_text(r, prev, now), "\"ifIndex\":"@ + dec(r.index as nat) + "}"@),
{
    reveal_strlit("\"up\":");
    reveal_strlit("\",\"up\":");
    reveal_strlit(",\"down\":");
    reveal_strlit(",\"ifIndex\":");
    reveal_strlit("\"ifIndex\":");
    reveal_strlit(",");
    reveal_strlit("\"");
    let t = adapter_text(r, prev, now);
    let up = dec(rate(r.out_octets, prev.1, now, prev.2));
    let down = dec(rate(r.in_octets, prev.0, now, prev.2));
    let idx = dec(r.index as nat);
    let head = "{\"name\":\""@ + crate::json::escaped(
        crate::perf::utf16_text(r.alias@.take(crate::perf::until_zero(r.alias@, 0))),
    ) + "\",\"desc\":\""@ + crate::json::escaped(
        crate::perf::utf16_text(r.description@.take(crate::perf::until_zero(r.description@, 0))),
    );
    assert(t == head + "\",\"up\":"@ + up + ",\"down\":"@ + down + ",\"ifIndex\":"@ + idx + "}"@);
    assert("\",\"up\":"@ =~= "\""@ + ","@ + "\"up\":"@);
    assert(",\"down\":"@ =~= ","@ + ",\"down\":"@.skip(1));
    assert(",\"ifIndex\":"@ =~= ","@ + "\"ifIndex\":"@);
    lemma_stands(
        t,
        head + "\""@ + ","@,
        "\"up\":"@ + up + ","@,
        ",\"down\":"@.skip(1) + down + ",\"ifIndex\":"@ + idx + "}"@,
    );
    lemma_stands(
        t,
        head + "\",\"up\":"@ + up,
        ",\"down\":"@ + down + ","@,
        "\"ifIndex\":"@ + idx + "}"@,
    );
    lemma_stands(
        t,
        head + "\",\"up\":"@ + up + ",\"down\":"@ + down + ","@,
        "\"ifIndex\":"@ + idx + "}"@,
        Seq::empty(),
    );
}

/// What is told as sent depends on the bytes sent alone: adapters that have sent the same since
/// the frame before are told with the same, whatever they have received, and with none where
/// they have sent none.
pub proof fn law_sent_is_of_sent_alone(
    r: IfRow,
    p: (u64, u64, u64),
    s: IfRow,
    q: (u64, u64, u64),
    now: u64,
    up: nat,
)
    requires
        r.out_octets - p.1 == s.out_octets - q.1,
        p.2 == q.2,
        p.2 < now,
        now - p.2 <= TOP,
        stands(adapter_text(r, p, now), "\"up\":"@ + dec(up) + ","@),
        up == rate(r.out_octets, p.1, now, p.2),
    ensures
        stands(adapter_text(s, q, now), "\"up\":"@ + dec(up) + ","@),
        r.out_octets <= p.1 ==> up == 0,
{
    law_adapter_tells(s, q, now);
    if r.out_octets <= p.1 {
        law_rate_is_growth(p.1, p.1, now, p.2, 0);
    }
}

/// What is told as received depends on the bytes received alone.
pub proof fn law_received_is_of_received_alone(
    r: IfRow,
    p: (u64, u64, u64),
    s: IfRow,
    q: (u64, u64, u64),
    now: u64,
    down: nat,
)
    requires
        r.in_octets - p.0 == s.in_octets - q.0,
        p.2 == q.2,
        p.2 < now,
        now - p.2 <= TOP,
        stands(adapter_text(r, p, now), ",\"down\":"@ + dec(down) + ","@),
        down == rate(r.in_octets, p.0, now, p.2),
    ensures
        stands(adapter_text(s, q, now), ",\"down\":"@ + dec(down) + ","@),
        r.in_octets <= p.0 ==> down == 0,
{
    law_adapter_tells(s, q, now);
    if r.in_octets <= p.0 {
        law_rate_is_growth(p.0, p.0, now, p.2, 0);
    }
}

proof fn lemma_after_rows(prev: Baseline, rows: Seq<IfRow>, now: u64, n: int, i: int)
    requires
        0 <= i < n <= rows.len(),
        physical(rows[i]),
        forall|j: int| i < j < n && physical(#[trigger] rows[j]) ==> rows[j].index != rows[i].index,
    ensures
        after_rows(prev, rows, now, n).contains_key(rows[i].index),
        after_rows(prev, rows, now, n)[rows[i].index] == (
            rows[i].in_octets,
            rows[i].out_octets,
            now,
        ),
    decreases n,
{
    if i < n - 1 {
        lemma_after_rows(prev, rows, now, n - 1, i);
    }
}

proof fn lemma_row_texts(prev: Baseline, rows: Seq<IfRow>, now: u64, n: int, i: int)
    requires
        0 <= i < n <= rows.len(),
        physical(rows[i]),
        prev.contains_key(rows[i].index),
    ensures
        row_texts(prev, rows, now, n).contains(adapter_text(rows[i], prev[rows[i].index], now)),
    decreases n,
{
    let x = adapter_text(rows[i], prev[rows[i].index], now);
    if i < n - 1 {
        lemma_row_texts(prev, rows, now, n - 1, i);
        let before = row_texts(prev, rows, now, n - 1);
        let k = choose|k: int| 0 <= k < before.len() && before[k] == x;
        assert(row_texts(prev, rows, now, n)[k] == x);
    } else {
        let before = row_texts(prev, rows, now, n - 1);
        assert(row_texts(prev, rows, now, n)[before.len() as int] == x);
    }
}

/// Two frames in a row: an adapter that is in both is told in the second with what it has sent
/// and received between them, for a second.
pub proof fn law_two_frames(
    prev: Baseline,
    first: Seq<IfRow>,
    t1: u64,
    i: int,
    second: Seq<IfRow>,
    t2: u64,
    j: int,
    up: nat,
    down: nat,
)
    requires
        0 <= i < first.len(),
        0 <= j < second.len(),
        physical(first[i]),
        physical(second[j]),
        first[i].index == second[j].index,
        forall|k: int| i < k < first.len() && physical(#[trigger] first[k]) ==> first[k].index != first[i].index,
        t1 < t2,
        t2 - t1 <= TOP,
        first[i].out_octets <= second[j].out_octets,
        first[i].in_octets <= second[j].in_octets,
        (second[j].out_octets - first[i].out_octets) * 1000 <= TOP,
        (second[j].in_octets - first[i].in_octets) * 1000 <= TOP,
        (second[j].out_octets - first[i].out_octets) * 1000 == up * (t2 - t1),
        (second[j].in_octets - first[i].in_octets) * 1000 == down * (t2 - t1),
    ensures
        ({
            let known = after_rows(prev, first, t1, first.len() as int);
            let said = row_texts(known, second, t2, second.len() as int);
            let line = frame_text(t2, said);
            &&& said.len() > 0
            &&& stands(line, "\"up\":"@ + dec(up) + ","@)
            &&& stands(line, ",\"down\":"@ + dec(down) + ","@)
            &&& stands(line, "\"ifIndex\":"@ + dec(second[j].index as nat) + "}"@)
        }),
{
    let known = after_rows(prev, first, t1, first.len() as int);
    let said = row_texts(known, second, t2, second.len() as int);
    lemma_after_rows(prev, first, t1, first.len() as int, i);
    lemma_row_texts(known, second, t2, second.len() as int, j);
    let r = second[j];
    let p = known[r.index];
    let x = adapter_text(r, p, t2);
    law_rate_is_growth(r.out_octets, p.1, t2, t1, up);
    law_rate_is_growth(r.in_octets, p.0, t2, t1, down);
    law_adapter_tells(r, p, t2);
    let k = choose|k: int| 0 <= k < said.len() && said[k] == x;
    lemma_joined_stands(said, ","@, k);
    let line = frame_text(t2, said);
    lemma_stands(
        line,
        "{\"t\":"@ + dec(t2 as nat) + ",\"adapters\":["@,
        joined(said, ","@),
        "]}"@,
    );
    lemma_stands_in(line, joined(said, ","@), x);
    lemma_stands_in(line, x, "\"up\":"@ + dec(up) + ","@);
    lemma_stands_in(line, x, ",\"down\":"@ + dec(down) + ","@);
    lemma_stands_in(line, x, "\"ifIndex\":"@ + dec(r.index as nat) + "}"@);
}

/// Only a wired or wireless adapter of hardware that is up is followed.
pub proof fn law_only_physical(r: IfRow)
    ensures
        physical(r) ==> r.oper_status == 1 && (r.if_type == 6 || r.if_type == 71),
        physical(r) ==> r.flags % 2 == 1 && (r.flags / 2) % 2 == 0,
        r.oper_status == 1 && r.if_type == 6 && r.flags == 1 ==> physical(r),
        r.oper_status == 1 && r.if_type == 71 && r.flags == 1 ==> physical(r),
{
}

/// The time between two frames lies between a fifth of a second and ten.
pub proof fn law_interval(args: Seq<Seq<char>>)
    ensures
        200 <= interval_of(args) <= 10_000,
        ({
            let n = crate::bench::number_of(args, "interval"@, 1000);
            200 <= n <= 10_000 ==> interval_of(args) == n
        }),
{
}

// ------------------------------------------------------------------------ the machine

/// How much of something is used is what is not free, and a whole share in percent is told as
/// it is.
pub proof fn law_used_and_share(total: u64, free: u64, percent: nat)
    requires
        free <= total,
        0 < total <= TOP,
        (total - free) * 100 <= TOP,
        (total - free) * 100 == percent * total,
    ensures
        used_of(total, free) == total - free,
        used_share(total, free) == 10 * percent,
        stands(
            space_text(total, free),
            "\"total\":"@ + dec(total as nat) + ",\"free\":"@ + dec(free as nat) + ",\"used\":"@ + dec(
                (total - free) as nat,
            ) + ",\"percent\":"@ + tenths_text(10 * percent),
        ),
{
    let n = (total - free) as nat;
    let t = total as nat;
    assert(n % 1 == 0 && n / 1 == n && t % 1 == 0 && t / 1 == t);
    assert((n * 100) % 1 == 0 && (n * 100) / 1 == n * 100);
    assert(whole(n) == (n, 1nat) && whole(t) == (t, 1nat));
    assert(times(whole(n), 100) == (n * 100, 1nat));
    lemma_over_whole((n * 100, 1nat), (t, 1nat));
    vstd::arithmetic::div_mod::lemma_fundamental_div_mod_converse(
        (n * 100) as int,
        t as int,
        percent as int,
        0,
    );
    assert(percent <= n * 100) by (nonlinear_arith)
        requires
            n * 100 == percent * t,
            t >= 1,
    ;
    assert((percent * 10) % 1 == 0 && (percent * 10) / 1 == percent * 10);
    lemma_stands(
        space_text(total, free),
        Seq::empty(),
        "\"total\":"@ + dec(total as nat) + ",\"free\":"@ + dec(free as nat) + ",\"used\":"@ + dec(n)
            + ",\"percent\":"@ + tenths_text(10 * percent),
        "}"@,
    );
}

/// Nothing is used of what is all free, or of nothing.
pub proof fn law_nothing_used(total: u64, free: u64)
    requires
        total <= free,
    ensures
        used_of(total, free) == 0,
        0 < total <= TOP ==> used_share(total, free) == 0,
        total == 0 ==> used_share(total, free) == 0,
{
    if total > 0 && total <= TOP {
        let t = total as nat;
        assert(t % 1 == 0 && t / 1 == t);
        assert(whole(0) == (0nat, 1nat) && whole(t) == (t, 1nat));
        assert(times(whole(0), 100) == (0nat, 1nat));
        lemma_over_whole((0nat, 1nat), (t, 1nat));
        vstd::arithmetic::div_mod::lemma_fundamental_div_mod_converse(0, t as int, 0, 0);
    }
}

/// The line about the machine tells the times of its processors, its memory, each of its
/// disks, how long it has been up, how many processes there are, and whose it is.
pub proof fn law_machine_tells(m: Machine, k: int)
    ensures
        m.cpu matches Some(c) ==> stands(
            metrics_text(m),
            "{\"success\":true,\"cpu\":null,\"cpuRaw\":"@ + ("{\"busy\":"@ + dec(c.0 as nat) + ",\"idle\":"@
                + dec(c.1 as nat) + "}"@),
        ),
        stands(
            metrics_text(m),
            ",\"memory\":{"@ + space_text(m.memory_total, m.memory_free) + ",\"disks\":["@,
        ),
        0 <= k < m.disks@.len() ==> stands(metrics_text(m), disk_text(m.disks@[k])),
        0 <= k < m.disks@.len() ==> stands(
            disk_text(m.disks@[k]),
            space_text(m.disks@[k].total, m.disks@[k].free),
        ),
        0 <= k < m.disks@.len() ==> stands(
            disk_text(m.disks@[k]),
            "{\"name\":\""@ + seq![m.disks@[k].letter] + ":\",\"label\":\""@,
        ),
        stands(
            metrics_text(m),
            "],\"uptime\":\""@ + crate::json::escaped(uptime_words(m.tick_ms as nat / 1000))
                + "\",\"processes\":"@,
        ),
        stands(
            metrics_text(m),
            "\",\"processes\":"@ + dec(m.processes as nat) + ",\"system\":{\"caption\":\""@,
        ),
        stands(
            metrics_text(m),
            "\",\"computerName\":\""@ + crate::json::escaped(m.computer@) + "\",\"userName\":\""@,
        ),
        stands(
            metrics_text(m),
            "\",\"userName\":\""@ + crate::json::escaped(m.user@) + "\"}}"@,
        ),
{
    lemma_stands_on();
    let raw = match m.cpu {
        Some((busy, idle)) => "{\"busy\":"@ + dec(busy as nat) + ",\"idle\":"@ + dec(idle as nat)
            + "}"@,
        None => "null"@,
    };
    let p1 = "{\"success\":true,\"cpu\":null,\"cpuRaw\":"@ + raw;
    lemma_stands_last(Seq::empty(), "{\"success\":true,\"cpu\":null,\"cpuRaw\":"@, raw, Seq::empty());
    assert(p1 =~= Seq::<char>::empty() + "{\"success\":true,\"cpu\":null,\"cpuRaw\":"@ + raw + Seq::<char>::empty());
    assert(p1 =~= p1 + Seq::<char>::empty());
    let mem = space_text(m.memory_total, m.memory_free);
    lemma_stands_last(p1, ",\"memory\":{"@, mem, ",\"disks\":["@);
    let p2 = p1 + ",\"memory\":{"@ + mem + ",\"disks\":["@;
    let disks = joined(disk_texts(m.disks@), ","@);
    let up = crate::json::escaped(uptime_words(m.tick_ms as nat / 1000));
    let procs = dec(m.processes as nat);
    let p3 = p2 + disks;
    lemma_stands_last(p3, "],\"uptime\":\""@, up, "\",\"processes\":"@);
    lemma_stands_last(
        p3 + "],\"uptime\":\""@ + up,
        "\",\"processes\":"@,
        procs,
        ",\"system\":{\"caption\":\""@,
    );
    let p4 = p3 + "],\"uptime\":\""@ + up + "\",\"processes\":"@ + procs
        + ",\"system\":{\"caption\":\""@ + crate::json::escaped(crate::perf::caption_of(m))
        + "\",\"version\":\""@ + crate::json::escaped(crate::perf::version_words(m))
        + "\",\"build\":\""@ + crate::json::escaped(dec(m.build as nat));
    let comp = crate::json::escaped(m.computer@);
    let user = crate::json::escaped(m.user@);
    lemma_stands_last(p4, "\",\"computerName\":\""@, comp, "\",\"userName\":\""@);
    lemma_stands_last(
        p4 + "\",\"computerName\":\""@ + comp,
        "\",\"userName\":\""@,
        user,
        "\"}}"@,
    );
    if 0 <= k < m.disks@.len() {
        lemma_joined_stands(disk_texts(m.disks@), ","@, k);
        lemma_stands(p3, p2, disks, Seq::empty());
        lemma_stands_in(p3, disks, disk_text(m.disks@[k]));
        lemma_disk(m.disks@[k]);
    }
}

proof fn lemma_disk(d: Disk)
    ensures
        stands(disk_text(d), space_text(d.total, d.free)),
        stands(disk_text(d), "{\"name\":\""@ + seq![d.letter] + ":\",\"label\":\""@),
{
    lemma_stands_on();
    let label = crate::json::escaped(
        crate::perf::utf16_text(d.label@.take(crate::perf::until_zero(d.label@, 0))),
    );
    let head = "{\"name\":\""@ + seq![d.letter] + ":\",\"label\":\""@;
    lemma_stands(head, Seq::empty(), head, Seq::empty());
    lemma_stands(
        disk_text(d),
        head + label + "\","@,
        space_text(d.total, d.free),
        Seq::empty(),
    );
}

/// How long the machine has been up is told in days, hours and minutes, the larger ones only
/// where there are any.
pub proof fn law_uptime(days: nat, hours: nat, minutes: nat, seconds: nat)
    requires
        hours < 24,
        minutes < 60,
        seconds < 60,
    ensures
        ({
            let t = uptime_words(86400 * days + 3600 * hours + 60 * minutes + seconds);
            &&& days > 0 ==> t == dec(days) + " 天 "@ + dec(hours) + " 小时 "@ + dec(minutes)
                + " 分钟"@
            &&& days == 0 && hours > 0 ==> t == dec(hours) + " 小时 "@ + dec(minutes) + " 分钟"@
            &&& days == 0 && hours == 0 ==> t == dec(minutes) + " 分钟"@
        }),
{
    let s = 86400 * days + 3600 * hours + 60 * minutes + seconds;
    assert(s / 86400 == days && s % 86400 == 3600 * hours + 60 * minutes + seconds);
    assert(s % 86400 / 3600 == hours);
    assert(s % 3600 == 60 * minutes + seconds) by {
        assert(s == 3600 * (24 * days + hours) + (60 * minutes + seconds));
    }
    assert(s % 3600 / 60 == minutes);
}

/// The time a processor was busy by its record.
pub open spec fn busy_in(buf: Seq<u8>) -> spec_fn(int) -> int {
    |k: int|
        {
            let idle = little_endian(buf, 24 * 2 * k, 8);
            let kernel = little_endian(buf, 24 * 2 * k + 8, 8);
            let user = little_endian(buf, 24 * 2 * k + 16, 8);
            (if kernel > idle {
                kernel - idle
            } else {
                0
            }) + user
        }
}

/// The time a processor was idle by its record.
pub open spec fn idle_in(buf: Seq<u8>) -> spec_fn(int) -> int {
    |k: int| little_endian(buf, 24 * 2 * k, 8) as int
}

/// The times of the processors are added up: idle time is no time in kernel mode, and a
/// processor is busy in both modes.
pub proof fn law_processor_times(buf: Seq<u8>, n: int)
    requires
        0 <= n,
    ensures
        cpu_sums(buf, n).0 == added(n, busy_in(buf)),
        cpu_sums(buf, n).1 == added(n, idle_in(buf)),
    decreases n,
{
    if n > 0 {
        law_processor_times(buf, n - 1);
        let m = n - 1;
        let width = crate::perf::CPU_RECORD as int;
        assert(m * width == 24 * 2 * m) by (nonlinear_arith)
            requires
                width == 48,
        ;
    }
}

/// A number is read with its lowest byte first.
pub proof fn law_little_endian(buf: Seq<u8>, at: int, n: int)
    requires
        n > 0,
    ensures
        little_endian(buf, at, n) % 256 == buf[at],
        little_endian(buf, at, n) / 256 == little_endian(buf, at + 1, n - 1),
        little_endian(buf, at, 1) == buf[at],
{
    reveal_with_fuel(little_endian, 2);
}

// ------------------------------------------------------------------------ freed memory

/// Exactly the kinds of memory that are asked for are freed, in their order; a kind that is
/// not known refuses all.
pub proof fn law_asked_memory(want: Seq<Seq<char>>, k: int, i: int)
    requires
        0 <= k <= 5,
    ensures
        forall|x: int| #[trigger]
            mem_chosen(want, k).contains(x) <==> 0 <= x < k && want.contains(mem_ids()[x]),
        forall|a: int, b: int|
            0 <= a < b < mem_chosen(want, k).len() ==> mem_chosen(want, k)[a] < mem_chosen(want, k)[b],
        0 <= i < want.len() && !mem_ids().contains(want[i]) ==> mem_refusal(want) is Some,
        want.len() == 0 ==> mem_refusal(want) is Some,
    decreases k,
{
    if 0 <= i < want.len() && !mem_ids().contains(want[i]) {
        lemma_unknown(want, 0, i);
    }
    if k > 0 {
        law_asked_memory(want, k - 1, i);
        let before = mem_chosen(want, k - 1);
        let now = mem_chosen(want, k);
        assert forall|x: int| #[trigger]
            now.contains(x) <==> 0 <= x < k && want.contains(mem_ids()[x]) by {
            if before.contains(x) {
                let j = choose|j: int| 0 <= j < before.len() && before[j] == x;
                assert(now[j] == x);
            }
            if now.contains(x) {
                let j = choose|j: int| 0 <= j < now.len() && now[j] == x;
                if j < before.len() {
                    assert(before[j] == x);
                    assert(before.contains(x));
                }
            }
            if x == k - 1 && want.contains(mem_ids()[x]) {
                assert(now[before.len() as int] == x);
            }
        }
        assert forall|a: int, b: int| 0 <= a < b < now.len() implies now[a] < now[b] by {
            assert(a < before.len());
            assert(before.contains(before[a]));
        }
    }
}

proof fn lemma_unknown(want: Seq<Seq<char>>, at: int, i: int)
    requires
        0 <= at <= i < want.len(),
        !mem_ids().contains(want[i]),
    ensures
        unknown_id(want, at) is Some,
    decreases i - at,
{
    if at < i && mem_ids().contains(want[at]) {
        lemma_unknown(want, at + 1, i);
    }
}

/// Each kind of memory is freed by a call of its own.
pub proof fn law_memory_calls(m: MemItem, k: int)
    requires
        0 <= k < 5,
        is_mem_item(m, k),
    ensures
        m.id@ == "workingSet"@ && k == 0 ==> m.class == 80 && m.value == 1,
        k == 1 ==> m.id@ == "modified"@ && m.class == 80 && m.value == 2,
        k == 2 ==> m.id@ == "standby"@ && m.class == 80 && m.value == 3,
        k == 3 ==> m.id@ == "standbyPriority0"@ && m.class == 80 && m.value == 4,
        k == 4 ==> m.id@ == "combine"@ && m.class == 87 && m.value == 0,
{
}

/// What is told of freeing memory: what was free before and after, how much more that is, and
/// of each kind whether its call has succeeded.
pub proof fn law_freed_memory_tells(
    want: Seq<Seq<char>>,
    before: u64,
    after: u64,
    statuses: Seq<i32>,
    k: int,
)
    requires
        before <= after,
        0 <= k < mem_all(want).len(),
    ensures
        stands(
            memory_text(want, before, after, statuses),
            "\"before\":"@ + dec(before as nat) + ",\"after\":"@ + dec(after as nat)
                + ",\"freed\":"@ + dec((after - before) as nat) + ","@,
        ),
        stands(
            memory_text(want, before, after, statuses),
            freed_text(mem_all(want)[k], statuses[k]),
        ),
        stands(
            freed_text(mem_all(want)[k], statuses[k]),
            "\"ok\":"@ + (if statuses[k] == 0 {
                "true"@
            } else {
                "false"@
            }),
        ),
        stands(
            freed_text(mem_all(want)[k], statuses[k]),
            "{\"id\":\""@ + mem_ids()[mem_all(want)[k]],
        ),
{
    let t = memory_text(want, before, after, statuses);
    let list = freed_texts(mem_all(want), statuses);
    let x = freed_text(mem_all(want)[k], statuses[k]);
    let n = mem_all(want)[k];
    reveal_strlit("{\"before\":");
    reveal_strlit("\"before\":");
    reveal_strlit(",\"results\":[");
    reveal_strlit(",");
    reveal_strlit("\",\"ok\":");
    reveal_strlit("\"ok\":");
    let r = ",\"results\":["@;
    assert(r =~= ","@ + r.skip(1));
    assert("{\"before\":"@ =~= "{\"before\":"@.take(1) + "\"before\":"@);
    lemma_stands(
        t,
        "{\"before\":"@.take(1),
        "\"before\":"@ + dec(before as nat) + ",\"after\":"@ + dec(after as nat) + ",\"freed\":"@
            + dec((after - before) as nat) + ","@,
        r.skip(1) + joined(list, ","@) + "]}"@,
    );
    lemma_joined_stands(list, ","@, k);
    lemma_stands(
        t,
        "{\"before\":"@ + dec(before as nat) + ",\"after\":"@ + dec(after as nat) + ",\"freed\":"@
            + dec(used_of(after, before)) + r,
        joined(list, ","@),
        "]}"@,
    );
    lemma_stands_in(t, joined(list, ","@), x);
    let ok = if statuses[k] == 0 {
        "true"@
    } else {
        "false"@
    };
    let o = "\",\"ok\":"@;
    assert(o =~= o.take(2) + "\"ok\":"@);
    let head = "{\"id\":\""@ + mem_ids()[n] + "\",\"name\":\""@ + crate::perf::mem_labels()[n];
    lemma_stands(
        x,
        head + o.take(2),
        "\"ok\":"@ + ok,
        ",\"status\":"@ + crate::numbers::signed_dec(statuses[k] as int) + "}"@,
    );
    lemma_stands(
        x,
        Seq::empty(),
        "{\"id\":\""@ + mem_ids()[n],
        "\",\"name\":\""@ + crate::perf::mem_labels()[n] + o + ok + ",\"status\":"@
            + crate::numbers::signed_dec(statuses[k] as int) + "}"@,
    );
}

} // verus!
