use trim_finder::bench::{
    bench_plan, bench_progress, build_offset_map, diskbench_json, run_diskbench, stage_progress,
    Cursor, Measured, Run,
};
use trim_finder::perf::{
    cpu_raw_times, mem_clean_calls, mem_clean_json, mem_items_arg, mem_plan, ov_metrics_json,
    run_mem_clean, sample_interval, uptime_text, utf16_str, Disk, IfRow, Machine, NetSampler,
};

fn list(v: &[&str]) -> Vec<String> {
    v.iter().map(|s| s.to_string()).collect()
}

fn measured(bytes: u64, ops: u64, nanos: u64) -> Measured {
    Measured { bytes, ops, nanos }
}

fn run(created: bool) -> Run {
    Run {
        drive_known: true,
        created,
        seq_write: measured(8 * 1_048_576 * 100, 800, 0),
        seq_read: measured(8 * 1_048_576 * 200, 1600, 0),
        rand_read: measured(4 * 4096 * 1000, 4000, 2_000_000_000),
        rand_write: measured(4 * 4096 * 500, 2000, 1_000_000_000),
        elapsed_ms: 1234,
    }
}

#[test]
fn a_measurement_is_planned_by_its_arguments() {
    let p = bench_plan(&list(&["diskbench", "--path", "D:\\t\\", "--qd", "7", "--threads", "4"]))
        .unwrap();
    assert_eq!((p.dir.as_str(), p.block, p.duration, p.qd, p.threads), ("D:\\t", 1_048_576, 8, 1, 4));
    assert_eq!(p.seq_size(), 64 * 1_048_576);
    assert_eq!(p.rand_size(), 32 * 1_048_576);
    assert_eq!(p.bench_dir(), "D:\\t\\Trim-DiskBench");
    assert_eq!(p.drive_root(), Some("D:\\\\".to_string()));
    let deep = bench_plan(&list(&["--path", "D:\\", "--qd", "32"])).unwrap();
    assert_eq!(deep.depth(), 16);
    assert_eq!(bench_plan(&list(&["diskbench"])).unwrap_err(), "缺少 --path");
    assert_eq!(
        bench_plan(&list(&["--path", "D:\\", "--duration", "5"])).unwrap_err(),
        "非法参数（block/duration 不在白名单）"
    );
}

#[test]
fn the_offsets_of_a_file_are_shuffled_and_complete() {
    let mut m = build_offset_map(10 * 4096 + 5, 4096);
    assert_ne!(m, (0..10).map(|i| i * 4096).collect::<Vec<u64>>());
    m.sort();
    assert_eq!(m, (0..10).map(|i| i * 4096).collect::<Vec<u64>>());
}

#[test]
fn accesses_start_again_at_the_end() {
    let list = vec![8192, 0, 4096];
    let mut seq = Cursor { random: false, io_size: 4096, seq_size: 8192, next_seq: 0, ring: 0 };
    assert_eq!((seq.next(&list), seq.next(&list), seq.next(&list)), (0, 4096, 0));
    let mut any = Cursor { random: true, io_size: 4096, seq_size: 8192, next_seq: 0, ring: 2 };
    assert_eq!((any.next(&list), any.next(&list)), (4096, 8192));
}

#[test]
fn what_was_measured_adds_up() {
    let mut m = measured(1, 2, 3);
    m.join(&measured(10, 20, u64::MAX));
    assert_eq!((m.bytes, m.ops, m.nanos), (11, 22, u64::MAX));
    m.complete(true, 4096, 100, 250);
    assert_eq!((m.bytes, m.ops), (11 + 4096, 23));
    let before = (m.bytes, m.ops);
    m.complete(false, 0, 100, 250);
    assert_eq!((m.bytes, m.ops), before);
}

#[test]
fn a_measurement_is_told_as_one_line() {
    let args = list(&["--path", "D:\\", "--block-bytes", "4096", "--duration", "8"]);
    let t = diskbench_json(&args, &run(true));
    assert!(t.starts_with(
        "{\"measured\":true,\"sequentialRead\":200.0,\"sequentialWrite\":100.0,\"randomRead\":3.9,\"randomWrite\":2.0,\"iops\":1000,\"latency\":0.500,\"blockSize\":4096,\"queueDepth\":1,\"threads\":1,\"duration\":8,\"ioMode\":\"nobuf\""
    ), "{t}");
    assert_eq!(diskbench_json(&args, &run(false)), "{\"error\":\"测试文件创建失败\"}");
    let (code, _) = run_diskbench(&args, &run(true));
    assert_eq!(code, 0);
    let (code, text) = run_diskbench(&list(&[]), &run(true));
    assert_eq!((code, text.as_str()), (2, "缺少 --path"));
    assert_eq!(bench_progress("seqread", 130), "{\"phase\":\"seqread\",\"percent\":100}");
    assert_eq!(stage_progress(2), "{\"phase\":\"seqread\",\"percent\":80}");
}

#[test]
fn texts_of_the_system_are_utf16() {
    assert_eq!(utf16_str(&vec![0x4e2d, 0x6587, 0, 0x41]), "中文");
    assert_eq!(utf16_str(&vec![0xd83d, 0xde00]), "😀");
    assert_eq!(utf16_str(&vec![0xd83d, 0x41]), "\u{fffd}A");
}

#[test]
fn the_times_of_all_processors_are_added() {
    let mut buf = vec![0u8; 96];
    for k in 0..2 {
        let at = k * 48;
        buf[at] = 10;
        buf[at + 8] = 30;
        buf[at + 16] = 5;
    }
    assert_eq!(cpu_raw_times(&buf, 96), (2 * (30 + 5 - 10), 2 * 10));
}

#[test]
fn the_running_time_is_told_in_words() {
    assert_eq!(uptime_text(90_061_000), "1 天 1 小时 1 分钟");
}

#[test]
fn the_state_of_the_machine_is_one_line() {
    let m = Machine {
        cpu: Some((5, 7)),
        memory_total: 1000,
        memory_free: 250,
        disks: vec![Disk { letter: 'C', label: vec![0x53, 0x79, 0x73], total: 200, free: 50 }],
        tick_ms: 3_600_000,
        processes: 12,
        caption: None,
        major: 10,
        minor: 0,
        build: 22631,
        computer: "PC".to_string(),
        user: "u\"v".to_string(),
    };
    let t = ov_metrics_json(&m);
    let v = trim_finder::value::read_json(&t).expect(&t);
    assert_eq!(trim_finder::value::compact_text(v.get("cpuRaw").unwrap()), "{\"busy\":5,\"idle\":7}");
    assert_eq!(v.get("system").unwrap().text("userName"), Some("u\"v"));
    assert_eq!(v.get("system").unwrap().text("version"), Some("10.0.22631"));
    assert_eq!(v.array("disks").unwrap().len(), 1);
}

fn row(index: u32, rx: u64, tx: u64) -> IfRow {
    IfRow {
        oper_status: 1,
        if_type: 6,
        flags: 1,
        in_octets: rx,
        out_octets: tx,
        index,
        alias: vec![0x45],
        description: vec![0x44],
    }
}

#[test]
fn an_adapter_is_shown_from_its_second_frame_on() {
    let mut s = NetSampler::new();
    assert_eq!(s.sample_frame(&Some(vec![row(3, 1000, 500)]), 1000), None);
    let line = s.sample_frame(&Some(vec![row(3, 3000, 1500)]), 2000).unwrap();
    let v = trim_finder::value::read_json(&line).expect(&line);
    assert_eq!(v.array("adapters").map(|a| a.len()), Some(1), "{line}");
    assert_eq!(s.sample_frame(&None, 3000), None);
    assert_eq!(sample_interval(&list(&["net-sample", "--interval", "5"])), 200);
    assert_eq!(sample_interval(&list(&["net-sample", "--interval", "500"])), 500);
    assert_eq!(sample_interval(&list(&["net-sample"])), 1000);
}

#[test]
fn only_known_memory_is_freed() {
    assert_eq!(mem_plan(&list(&[])).unwrap_err(), "未选择要清理的内存区域");
    assert!(mem_plan(&list(&["workingSet", "all"])).is_err());
    let plan = mem_plan(&list(&["combine", "standby"])).unwrap();
    assert_eq!(plan.iter().map(|m| (m.id, m.class, m.value)).collect::<Vec<_>>(), [
        ("standby", 80, 3),
        ("combine", 87, 0)
    ]);
    let t = mem_clean_json(&list(&["standby"]), 100, 350, &vec![0]);
    assert!(t.starts_with("{\"before\":100,\"after\":350,\"freed\":250,\"results\":["), "{t}");
    assert!(mem_clean_json(&list(&["x"]), 1, 2, &vec![]).starts_with("{\"error\":"));
    assert_eq!(mem_items_arg(&list(&["mem-clean", "--items", "a,b"])).unwrap(), ["a", "b"]);
    assert!(mem_items_arg(&list(&["mem-clean"])).is_err());
}

#[test]
fn freeing_memory_is_one_line_and_a_code() {
    let good = list(&["mem-clean", "--items", "standby,combine"]);
    let calls = mem_clean_calls(&good);
    assert_eq!(calls.iter().map(|m| m.id).collect::<Vec<_>>(), ["standby", "combine"]);
    let (code, line) = run_mem_clean(&good, 100, 350, &vec![0, 0]);
    assert_eq!(code, 0);
    assert_eq!(line, mem_clean_json(&list(&["standby", "combine"]), 100, 350, &vec![0, 0]));
    let unknown = list(&["mem-clean", "--items", "standby,all"]);
    assert!(mem_clean_calls(&unknown).is_empty());
    let (code, line) = run_mem_clean(&unknown, 1, 2, &vec![]);
    assert!(code == 2 && !line.starts_with('{') && !line.is_empty(), "{line}");
    let (code, line) = run_mem_clean(&list(&["mem-clean"]), 1, 2, &vec![]);
    assert_eq!((code, line), (2, mem_items_arg(&list(&["mem-clean"])).unwrap_err()));
}
