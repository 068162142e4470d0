use trim_finder::bench::{diskbench_json, Measured, Run};
use trim_finder::commands::fonts::save_config;
use trim_finder::double::{near, near_whole, size_less, Binary};
use trim_finder::duplicates::pass_share_of;
use trim_finder::json::Json;
use trim_finder::numeral::{approximate, fewest_digits};
use trim_finder::perf::{ov_metrics_json, utf16_str, IfRow, Machine, NetSampler};
use trim_finder::text::trim;
use trim_finder::value::{
    compact_text, finite_number, js_truthy, read_json, size_given, size_in, whole_number,
};
use trim_finder::version::Version;

/// The next number of a sequence that looks drawn.
fn draw(seed: &mut u64) -> u64 {
    *seed = seed.wrapping_mul(6_364_136_223_846_793_005).wrapping_add(1_442_695_040_888_963_407);
    *seed ^ (*seed >> 29)
}

fn measured(bytes: u64, ops: u64, nanos: u64) -> Measured {
    Measured { bytes, ops, nanos }
}

fn report(m: [u64; 3]) -> Json {
    let args: Vec<String> =
        ["--path", "D:\\", "--block-bytes", "4096", "--duration", "16"].map(String::from).to_vec();
    let run = Run {
        drive_known: true,
        created: true,
        seq_write: measured(m[0], 1, 1),
        seq_read: measured(m[1], 1, 1),
        rand_read: measured(m[2], m[1], m[0]),
        rand_write: measured(m[0], 1, 1),
        elapsed_ms: 1,
    };
    let t = diskbench_json(&args, &run);
    trim_finder::json::parse_json(&t).expect(&t)
}

fn told(v: &Json, key: &str) -> String {
    compact_text(v.get(key).unwrap())
}

#[test]
fn one_request_of_two_and_a_half_microseconds() {
    assert_eq!(told(&report([2500, 1, 0]), "latency"), "0.003");
    assert_eq!(told(&report([1500, 1, 0]), "latency"), "0.002");
    assert_eq!(told(&report([500, 1, 0]), "latency"), "0.001");
    assert_eq!(told(&report([5, 0, 0]), "latency"), "0.000");
}

#[test]
fn what_is_measured_is_rounded_as_a_machine_rounds_it() {
    let mut seed = 7;
    let mut cases = vec![[0, 0, 0], [u64::MAX, u64::MAX, u64::MAX], [u64::MAX, 1, u64::MAX]];
    for i in 0..300 {
        let cut = |n: u64, by: u64| n >> (by % 60);
        let a = draw(&mut seed);
        let b = draw(&mut seed);
        let c = draw(&mut seed);
        cases.push([cut(a, i), cut(b, i * 7), cut(c, i * 11)]);
        cases.push([i * 500, 1 + i % 3, i * 13_107]);
    }
    for m in cases {
        let v = report(m);
        let speed = |b: u64, ms: u64| b as f64 / (1024.0 * 1024.0) / (ms as f64 / 1000.0);
        assert_eq!(told(&v, "sequentialWrite"), format!("{:.1}", speed(m[0], 16_000)), "{m:?}");
        assert_eq!(told(&v, "sequentialRead"), format!("{:.1}", speed(m[1], 16_000)), "{m:?}");
        assert_eq!(told(&v, "randomRead"), format!("{:.1}", speed(m[2], 8000)), "{m:?}");
        let iops = m[1] as f64 / (8000.0 / 1000.0);
        assert_eq!(told(&v, "iops"), format!("{iops:.0}"), "{m:?}");
        let latency = if m[1] > 0 { (m[0] as f64 / m[1] as f64) / 1e6 } else { 0.0 };
        assert_eq!(told(&v, "latency"), format!("{latency:.3}"), "{m:?}");
    }
}

fn machine(total: u64, free: u64) -> Machine {
    Machine {
        cpu: None,
        memory_total: total,
        memory_free: free,
        disks: vec![],
        tick_ms: 0,
        processes: 0,
        caption: None,
        major: 10,
        minor: 0,
        build: 1,
        computer: String::new(),
        user: String::new(),
    }
}

#[test]
fn the_used_share_is_rounded_as_a_machine_rounds_it() {
    let mut seed = 3;
    let mut cases = vec![(0, 0), (8000, 7997), (2000, 1999), (u64::MAX, 1), (1, 5)];
    for i in 0..300 {
        let total = draw(&mut seed) >> (i % 50);
        cases.push((total, draw(&mut seed) % total.max(1)));
        cases.push((1 + i, i / 2));
    }
    for (total, free) in cases {
        let t = ov_metrics_json(&machine(total, free));
        let used = total.saturating_sub(free);
        let share = if total > 0 { used as f64 * 100.0 / total as f64 } else { 0.0 };
        assert!(t.contains(&format!("\"used\":{used},\"percent\":{share:.1}}}")), "{t} {share:.1}");
    }
}

fn row(index: u32, rx: u64, tx: u64) -> IfRow {
    IfRow {
        oper_status: 1,
        if_type: 6,
        flags: 1,
        in_octets: rx,
        out_octets: tx,
        index,
        alias: vec![0x45],
        description: vec![0x44],
    }
}

#[test]
fn the_traffic_is_rounded_as_a_machine_rounds_it() {
    let mut seed = 11;
    let mut cases = vec![(0, 1), (u64::MAX, 1), (u64::MAX, 3), (5, 2000), (3, 2000), (1, 2000)];
    for i in 0..300 {
        cases.push((draw(&mut seed) >> (i % 60), 1 + draw(&mut seed) % 5000));
    }
    for (bytes, ms) in cases {
        let mut s = NetSampler::new();
        assert_eq!(s.sample_frame(&Some(vec![row(3, 0, 0)]), 10), None);
        let line = s.sample_frame(&Some(vec![row(3, bytes, 0)]), 10 + ms).unwrap();
        let down = bytes as f64 * 1000.0 / ms as f64;
        assert!(line.contains(&format!("\"down\":{down:.0},")), "{line} {down:.0}");
    }
}

#[test]
fn the_first_frame_is_silent_whatever_the_table_holds() {
    let mut s = NetSampler::new();
    assert_eq!(s.sample_frame(&Some(vec![row(3, 5, 5), row(3, 9, 9), row(4, 1, 1)]), 1000), None);
    let line = s.sample_frame(&Some(vec![row(3, 10, 10), row(3, 20, 20)]), 2000).unwrap();
    assert_eq!(line.matches("\"ifIndex\":3").count(), 2, "{line}");
    assert!(line.contains("\"down\":1,") && line.contains("\"down\":11,"), "{line}");
}

#[test]
fn a_pass_is_told_as_a_machine_reckons_it() {
    for (i, total) in [(0, 1), (2000, 2001), (2000, 6000), (4000, 6000), (7, 15), (9, 11)] {
        let f = (i as f64 / (total as f64).max(1.0) * 15.0) as u64;
        assert_eq!(pass_share_of(i, total), f.min(100), "{i} {total}");
    }
    for total in 1..300usize {
        for i in 0..total {
            let f = (i as f64 / total as f64 * 15.0) as u64;
            assert_eq!(pass_share_of(i, total), f, "{i} {total}");
        }
    }
}

fn value(x: Binary) -> f64 {
    x.digits as f64 * (x.shift as f64).exp2()
}

#[test]
fn a_fraction_has_the_nearest_number() {
    let mut seed = 5;
    for i in 0..500 {
        let p = draw(&mut seed) >> (i % 64);
        let q = (draw(&mut seed) >> (i % 37)).max(1);
        let (a, b) = (near_whole(p as u128), near_whole(q as u128));
        assert_eq!((a, b), ((p as f64) as u128, (q as f64) as u128));
        assert_eq!(value(near(a, b)), p as f64 / q as f64, "{p} {q}");
    }
}

/// The number that a text writes, with how it is rounded.
fn read(t: &str) -> Option<Binary> {
    let t = t.trim_start_matches(['-', '+']).to_lowercase();
    let (m, e) = match t.split_once('e') {
        Some((m, e)) => (m.to_string(), e.parse::<i128>().unwrap()),
        None => (t.clone(), 0),
    };
    let (a, b) = m.split_once('.').unwrap_or((&m, ""));
    approximate(&format!("{a}{b}").chars().collect(), a.len() as i128 + e)
}

#[test]
fn digits_are_read_as_the_nearest_number() {
    let hard = [
        "0", "1", "0.1", "0.2", "1e23", "9007199254740993", "9007199254740992.5", "9007199254740991",
        "1.7976931348623157e308", "1.7976931348623158e308", "4.9e-324", "2.5e-324", "2.4e-324",
        "2.2250738585072014e-308", "2.2250738585072011e-308", "123456789012345678901234567890",
        "0.000000000000000000000000000000000000123", "1e-400", "8.5e-5", "5e-1", "1e22", "1e0",
        "179769313486231570814527423731704356798070567525844996598917476803157260780028538760589558632766878171540458953514382464234321326889464182768467546703537516986049910576551282076245490090389328944075868508455133942304583236903222948165808559332123347747e1",
    ];
    for t in hard {
        let f: f64 = t.parse().unwrap();
        match read(t) {
            Some(b) => assert_eq!(value(b).to_bits(), f.to_bits(), "{t}"),
            None => assert!(f.is_infinite(), "{t}"),
        }
    }
    for t in ["1.7976931348623159e308", "9e308", "1e309", "1e4000"] {
        assert!(read(t).is_none() && t.parse::<f64>().unwrap().is_infinite(), "{t}");
    }
}

fn text(t: &str) -> Json {
    Json::Str(t.to_string())
}

fn js_num_str(n: f64) -> String {
    if n.fract() == 0.0 && n.abs() < 9e15 {
        format!("{}", n as i64)
    } else {
        format!("{n}")
    }
}

fn holds(t: &str) {
    let f: f64 = t.trim().parse().unwrap_or(f64::NAN);
    let j = text(t);
    let whole = if f.is_finite() { f as i64 } else { 0 };
    assert_eq!(whole_number(Some(&j)), whole, "{t}");
    assert_eq!(finite_number(Some(&j)), f.is_finite().then_some(whole), "{t}");
    assert_eq!(size_in(Some(&j)), if f > 0.0 { f as u64 } else { 0 }, "{t}");
    let given = (f.is_finite() && f != 0.0).then_some(f.max(0.0) as u64);
    assert_eq!(size_given(Some(&j)), given, "{t}");
    let kept = if f.is_finite() { f } else { 0.0 };
    let value = serde_json::Value::from(kept).to_string();
    assert_eq!(compact_text(&Version::read(Some(&j)).value()), value, "{t}");
    let shown = if f.is_finite() { js_num_str(f) } else { "0".to_string() };
    assert_eq!(Version::read(Some(&j)).text(), shown, "{t}");
}

#[test]
fn a_text_counts_as_the_number_that_it_writes() {
    for t in [
        "0", "-0", "1.5", "-1.5", " 12 ", "+7", ".5", "5.", ".", "e5", "1e", "1e5", "1E-5", "x", "",
        "inf", "-inf", "+Infinity", "INFINITY", "nan", "NaN", "infinit", "1e308", "9e308", "1e309",
        "-9e308", "9007199254740993", "9223372036854775807", "-9223372036854775809",
        "18446744073709551615", "18446744073709551616", "123456789.987654321", "0.1", "1e-400",
        "11.99999999999999999999", "2.5e-5", "1e23", "9e15", "9000000000000001", "8999999999999999.5",
        "5.684341886080801e-14", "9.5367431640625e-7", "0.30000000000000004", "100000000000000000000",
        "\u{2003}8\u{a0}", "\u{200b}8", "16.0000152587890625", "1973862145609643.25",
    ] {
        holds(t);
    }
}

#[test]
fn drawn_numbers_are_read_and_shown() {
    let mut seed = 99;
    for i in 0..150u64 {
        let bits = draw(&mut seed);
        let exponent = 1023 - 40 + (bits >> 52) % 100;
        let f = f64::from_bits((bits & 0xf_ffff_ffff_ffff) | (exponent << 52));
        holds(&format!("{f}"));
        holds(&format!("{:.1$}", -f, (i % 20) as usize));
    }
}

#[test]
fn numbers_of_every_size_are_read_and_shown() {
    let mut seed = 123;
    for _ in 0..8 {
        let f = f64::from_bits(draw(&mut seed) & 0x7fef_ffff_ffff_ffff);
        holds(&format!("{f:e}"));
    }
    holds("1.7976931348623157e308");
    holds("5e-324");
}

#[test]
fn powers_of_two_are_shown_with_the_fewest_digits() {
    for k in [-60i32, -44, -30, -10, -1, 3, 53, 54, 60, 63, 64, 77, 89] {
        let f = (k as f64).exp2();
        let (n, e) = fewest_digits(Binary { digits: 1 << 52, shift: k - 52 }, true);
        let shown = format!("{f:e}");
        let (m, x) = shown.split_once('e').unwrap();
        let digits = m.replace('.', "");
        let e_first = e + n.to_string().len() as i32 - 1;
        let trimmed = n.to_string().trim_end_matches('0').to_string();
        assert_eq!((trimmed, e_first), (digits, x.parse().unwrap()), "{k}");
    }
}

#[test]
fn numbers_compare_by_their_size() {
    let b = |t: &str| read(t).unwrap();
    for (x, y) in [("0", "1e-320"), ("1e-320", "2e-320"), ("1", "1.0000000000000002"), ("5", "1e300")] {
        assert!(size_less(b(x), b(y)) && !size_less(b(y), b(x)), "{x} {y}");
    }
    assert!(!size_less(b("0.5"), b("5e-1")) && !size_less(b("1e22"), b("10000000000000000000000")));
    let v = |t: &str| Version::read(Some(&text(t)));
    assert!(!v("9007199254740992").is_below(&v("9007199254740993")));
    assert!(v("9007199254740992").is_below(&v("9007199254740994")));
    assert!(!v("9e308").is_below(&v("0")) && !v("0").is_below(&v("9e308")));
    assert!(!v("-inf").is_below(&v("0")));
}

#[test]
fn only_zero_counts_as_false_among_numbers() {
    assert!(!js_truthy(&Json::Num("0".to_string())) && !js_truthy(&Json::Num("1e-400".to_string())));
    assert!(js_truthy(&Json::Num("5e-324".to_string())) && js_truthy(&Json::Num("-1".to_string())));
}

#[test]
fn a_font_size_is_held_as_a_number() {
    let size = |t: &str| {
        let cfg = read_json(&format!("{{\"size\":{t}}}")).unwrap();
        let (_, reply) = save_config(read_json("{}").unwrap(), &cfg);
        compact_text(reply.get("data").unwrap().get("size").unwrap())
    };
    for (t, want) in [
        ("16.5", "16.5"), ("\"16.50\"", "16.5"), ("11.9", "12"), ("24.5", "24"), ("0", "16"),
        ("\"11.99999999999999999999\"", "12"), ("\"9e308\"", "16"), ("\"inf\"", "16"), ("-3", "12"),
        ("\"12.3000000000000007105\"", "12.3"), ("true", "12"), ("null", "16"),
        ("\"16.0000152587890625\"", "16.000015258789062"),
    ] {
        assert_eq!(size(t), want, "{t}");
    }
}

#[test]
fn every_white_character_is_trimmed() {
    for c in (0..=0x10ffff).filter_map(char::from_u32) {
        let t = trim(&format!("{c}x{c}"));
        assert_eq!(t == "x", c.is_whitespace(), "{:x}", c as u32);
    }
}

#[test]
fn lone_surrogates_are_replaced() {
    assert_eq!(utf16_str(&vec![0x41, 0xd83d, 0xde00, 0x42]), "A\u{1f600}B");
    assert_eq!(utf16_str(&vec![0xd83d, 0x41, 0xde00, 0xd83d]), "\u{fffd}A\u{fffd}\u{fffd}");
    assert_eq!(utf16_str(&vec![0xd83d, 0xd83d, 0xde00, 0, 0x41]), "\u{fffd}\u{1f600}");
}
