use trim_finder::commands::device::device_scan;
use trim_finder::commands::log::{export_name, log_export};
use trim_finder::commands::netspeed::{netspeed_ping, netspeed_throughput, throughput_seconds};
use trim_finder::commands::reply::Told;
use trim_finder::commands::app::{
    app_info, external_forbidden, external_gate, external_reply, first_paint, read_usage,
    shell_outcome, AppFacts,
};
use trim_finder::commands::benchhistory::{
    add_record, check_record, drop_record, list_reply, load_bench_history, new_record_id,
    MAX_HISTORY,
};
use trim_finder::commands::contextmenu::PsOutput;
use trim_finder::commands::diskbench::{
    bench_args, bench_options, bench_result, bench_timeout, is_diskbench_allowed_path,
    requested_path, run_gate, strip_verbatim, Place,
};
use trim_finder::commands::maintenance::{run_result, tasks_reply, Desk};
use trim_finder::commands::memory::{
    block_result, clean_gate, clean_result, is_critical_process_name, js_int, kill_gate,
    lookup_snapshot, make_proc, processes_reply, save_snapshot, stubborn_gate,
};
use trim_finder::commands::misc::{detect_dwm_inject_tools, dwm_reply, intro_load, modal_id};
use trim_finder::commands::netcheck::{
    build_repair_script, collect_output, collect_reply, find_repair, finish_repair, native_output,
    repair_gate, repair_output, replace_sentinel, snapshot_store, Scripts,
};
use trim_finder::commands::reply::engine_reply;
use trim_finder::json::Json;
use trim_finder::slots::Slots;
use trim_finder::value::{compact_text, read_json};

fn v(t: &str) -> Json {
    read_json(t).expect(t)
}

fn items(t: &str) -> Vec<Json> {
    match v(t) {
        Json::Arr(a) => a,
        _ => panic!("no list"),
    }
}

fn message(j: &Json) -> &str {
    j.text("message").unwrap()
}

fn list(v: &[&str]) -> Vec<String> {
    v.iter().map(|s| s.to_string()).collect()
}

fn ran(code: i32, stdout: &str, stderr: &str) -> PsOutput {
    PsOutput { code, timed_out: false, stdout: stdout.to_string(), stderr: stderr.to_string() }
}

// ------------------------------------------------------------------------------------- app

#[test]
fn only_https_addresses_are_opened() {
    assert_eq!(external_gate("  HTTPS://a.b/c ").unwrap(), "HTTPS://a.b/c");
    assert_eq!(compact_text(&external_gate(" ").unwrap_err()), "{\"ok\":false,\"reason\":\"empty\"}");
    assert_eq!(
        compact_text(&external_gate("javascript:alert(1)").unwrap_err()),
        "{\"ok\":false,\"reason\":\"scheme\",\"protocol\":\"javascript:\"}"
    );
    assert_eq!(
        compact_text(&external_gate("http").unwrap_err()),
        "{\"ok\":false,\"reason\":\"scheme\",\"protocol\":\"http:\"}"
    );
    assert_eq!(compact_text(&external_reply(Ok(()))), "{\"ok\":true}");
    assert_eq!(
        compact_text(&external_reply(shell_outcome(32))),
        "{\"ok\":false,\"reason\":\"open-failed\",\"message\":\"ShellExecute 返回 32\"}"
    );
    assert!(shell_outcome(33).is_ok());
    assert_eq!(
        compact_text(&external_forbidden("no")),
        "{\"ok\":false,\"reason\":\"forbidden\",\"message\":\"no\"}"
    );
}

#[test]
fn the_guide_is_shown_where_there_is_one() {
    assert_eq!(compact_text(&read_usage("# a")), "{\"success\":true,\"content\":\"# a\"}");
    assert_eq!(message(&read_usage(" \n")), "使用说明文件不存在");
    assert!(first_paint("main") && !first_paint("preview"));
}

#[test]
fn the_application_tells_what_it_is() {
    let a = AppFacts {
        version: "1.2.3".to_string(),
        arch: "x64".to_string(),
        os_version: "10.0".to_string(),
        os_build: 22631,
        fluent: "none".to_string(),
        material: true,
        admin: false,
        username: "me".to_string(),
        homedir: "C:\\Users\\me".to_string(),
        portable: false,
        data_dir: "C:\\d".to_string(),
    };
    let i = app_info(&a);
    assert_eq!(i.text("name"), Some("Trim"));
    assert_eq!(i.flag("micaEnabled"), Some(false));
    assert_eq!(compact_text(i.get("osBuild").unwrap()), "22631");
}

// ---------------------------------------------------------------------------- benchhistory

#[test]
fn records_are_held_to_their_form() {
    let why = |t: &str| check_record(Some(&v(t))).map(|f| compact_text(&f.object())).unwrap_err();
    assert_eq!(check_record(None).map(|_| ()).unwrap_err(), "记录格式不合法");
    assert_eq!(why("[1]"), "记录格式不合法");
    assert_eq!(why("{\"iops\":\"5\",\"sequentialRead\":1}"), "字段 iops 必须为有限数值");
    assert_eq!(why("{\"sequentialRead\":1,\"path\":5}"), "路径字段不合法");
    let long = format!("{{\"sequentialRead\":1,\"path\":\"{}\"}}", "😀".repeat(513));
    assert_eq!(why(&long), "路径字段不合法");
    let fits = format!("{{\"sequentialRead\":1,\"path\":\"{}\"}}", "😀".repeat(512));
    assert!(check_record(Some(&v(&fits))).is_ok());
    assert_eq!(why("{\"sequentialRead\":1,\"engine\":\"x\"}"), "引擎标识不合法");
    assert_eq!(why("{\"iops\":1}"), "缺少测速结果数值");
    let kept = check_record(Some(&v("{\"x\":1,\"latency\":0.5,\"sequentialWrite\":2,\"threads\":null,\"engine\":\"rust\"}")));
    assert_eq!(
        compact_text(&kept.map(|f| f.object()).unwrap()),
        "{\"sequentialWrite\":2,\"latency\":0.5,\"engine\":\"rust\"}"
    );
}

#[test]
fn the_newest_record_stands_first_and_fifty_are_kept() {
    let r = v("{\"sequentialRead\":1}");
    let mut all: Vec<Json> = Vec::new();
    for i in 0..55 {
        let (next, reply) = add_record(Some(&r), all, &format!("id{i}"), 1000);
        assert_eq!(compact_text(&reply), "{\"success\":true}");
        all = next.unwrap();
    }
    assert_eq!(all.len(), MAX_HISTORY);
    assert_eq!(
        compact_text(&all[0]),
        "{\"id\":\"id54\",\"timestamp\":\"1970-01-01T00:00:01.000Z\",\"sequentialRead\":1}"
    );
    assert_eq!(all[49].text("id"), Some("id5"));
    let left = drop_record(&all, "id54");
    assert_eq!((left.len(), left[0].text("id")), (49, Some("id53")));
    let (next, reply) = add_record(Some(&v("{}")), left, "x", 0);
    assert!(next.is_none());
    assert_eq!(message(&reply), "缺少测速结果数值");
}

#[test]
fn a_broken_history_counts_as_none() {
    assert_eq!(load_bench_history(Some("[{\"id\":\"a\"}]")).len(), 1);
    for t in [None, Some("{}"), Some("x")] {
        assert!(load_bench_history(t).is_empty());
    }
    assert_eq!(compact_text(&list_reply(vec![])), "{\"success\":true,\"data\":[]}");
    let many: Vec<Json> = (0..MAX_HISTORY + 3).map(|i| v(&i.to_string())).collect();
    let listed = list_reply(many);
    assert_eq!(listed.array("data").unwrap().len(), MAX_HISTORY);
    assert_eq!(compact_text(&listed.array("data").unwrap()[0]), "0");
}

#[test]
fn names_of_records_have_a_moment_and_six_digits() {
    let a = new_record_id(1234, 0, 0);
    assert_eq!(a, "1234_7iycgp");
    assert_ne!(a, new_record_id(1234, 0, 1));
    let (head, tail) = a.split_once('_').unwrap();
    assert_eq!((head, tail.len()), ("1234", 6));
    assert!(tail.chars().all(|c| c.is_ascii_digit() || c.is_ascii_lowercase()));
}

// ------------------------------------------------------------------------------- diskbench

#[test]
fn disks_are_measured_below_the_directories_of_the_user() {
    let roots = list(&["C:\\Users\\Me\\", "D:\\Temp"]);
    assert!(is_diskbench_allowed_path("c:\\users\\me", &roots));
    assert!(is_diskbench_allowed_path("C:\\USERS\\ME\\x", &roots));
    assert!(!is_diskbench_allowed_path("C:\\Users\\Mexx", &roots));
    assert_eq!(strip_verbatim("\\\\?\\C:\\a"), "C:\\a");
    assert_eq!(requested_path(&v("{\"path\":\" C:\\\\a \"}")), "C:\\a");
    let gate = |place, free| run_gate("D:\\Temp", place, "D:\\Temp", &roots, free).map_err(|e| message(&e).to_string());
    assert_eq!(gate(Place::PlainDir, Some(1_073_741_824)), Ok(()));
    assert_eq!(gate(Place::PlainDir, None), Ok(()));
    assert_eq!(gate(Place::Missing, None), Err("测速路径不存在".to_string()));
    assert_eq!(gate(Place::Unread, None), Err("测速路径不可访问".to_string()));
    assert_eq!(gate(Place::Other, None), Err("测速路径必须是普通目录".to_string()));
    assert_eq!(
        gate(Place::PlainDir, Some(1_073_741_823)),
        Err("目标磁盘剩余空间不足，请选择空间更大的盘符（需至少约 1 GB）".to_string())
    );
    assert_eq!(
        message(&run_gate("E:\\", Place::PlainDir, "E:\\", &roots, None).unwrap_err()),
        "测速路径受限，请选择用户目录（如下载、文档、桌面）或临时目录下的路径"
    );
}

#[test]
fn settings_outside_the_lists_fall_back() {
    let o = bench_options(&v("{\"blockSize\":\"4096\",\"queueDepth\":8.9,\"threads\":3,\"duration\":true,\"ioMode\":\"buf\"}"));
    assert_eq!((o.block, o.depth, o.threads, o.seconds, o.buffered), (4096, 1, 1, 8, true));
    let o = bench_options(&v("{\"blockSize\":65536,\"queueDepth\":8.0,\"threads\":\" 4 \",\"duration\":16,\"ioMode\":\"x\"}"));
    assert_eq!((o.block, o.depth, o.threads, o.seconds, o.buffered), (65536, 8, 4, 16, false));
    let o = bench_options(&v("{}"));
    assert_eq!((o.block, o.depth, o.threads, o.seconds, o.buffered), (1_048_576, 1, 1, 8, false));
    assert_eq!(bench_timeout(&o), 92_000);
    assert_eq!(
        bench_args("D:\\", &o),
        ["diskbench", "--path", "D:\\", "--block-bytes", "1048576", "--duration", "8", "--qd", "1", "--threads", "1", "--mode", "nobuf"]
    );
}

#[test]
fn a_measurement_that_did_not_end_is_cleared_away() {
    let (r, clear) = bench_result(Some(" {\"measured\":true} "));
    assert_eq!(compact_text(&r), "{\"success\":true,\"data\":{\"measured\":true},\"engine\":\"rust\"}");
    assert!(!clear);
    let (r, clear) = bench_result(Some("{\"error\":\"x\"}"));
    assert_eq!((r.flag("success"), clear), (Some(false), true));
    let (r, clear) = bench_result(None);
    assert_eq!((message(&r), clear), ("磁盘测速超时（原生引擎）", true));
    let (r, clear) = bench_result(Some("{"));
    assert_eq!(message(&r), "磁盘测速结果解析失败: EOF while parsing an object at line 1 column 1");
    assert!(clear);
}

// ----------------------------------------------------------------------------- maintenance

#[test]
fn one_task_runs_at_a_time() {
    let tasks = items("[{\"id\":\"a\"},{\"id\":\"b\",\"admin\":true}]");
    let mut d = Desk::new();
    let why = |r: Result<(), Json>| message(&r.unwrap_err()).to_string();
    assert_eq!(why(d.start(None, &tasks, true)), "缺少任务 ID");
    assert_eq!(why(d.start(Some(""), &tasks, true)), "缺少任务 ID");
    assert_eq!(why(d.start(Some("x"), &tasks, true)), "未知的维护任务: x");
    let e = d.start(Some("b"), &tasks, false).unwrap_err();
    assert_eq!(e.flag("needAdmin"), Some(true));
    assert!(d.start(Some("b"), &tasks, true).is_ok());
    assert_eq!(why(d.start(Some("a"), &tasks, true)), "已有维护任务在执行中（b），请等待完成");
    d.finish();
    assert!(d.start(Some("a"), &tasks, false).is_ok());
}

#[test]
fn the_outcome_of_a_task_is_told() {
    let (r, line) = run_result("t", Ok((true, "done".to_string())));
    assert_eq!(
        compact_text(&r),
        "{\"success\":true,\"message\":\"done\",\"data\":{\"taskId\":\"t\",\"result\":\"ok\",\"output\":\"done\"}}"
    );
    assert_eq!(compact_text(&line.unwrap()), "{\"taskId\":\"t\",\"line\":\"done\"}");
    let (r, line) = run_result("t", Ok((false, "x".to_string())));
    assert_eq!((message(&r), line.is_none()), ("原生执行未成功: x", true));
    let (r, _) = run_result("t", Err("y".to_string()));
    assert_eq!((message(&r), r.get("data").unwrap().text("result")), ("原生执行异常: y", Some("error")));
    assert_eq!(
        compact_text(&tasks_reply(items("[{\"id\":\"a\"}]"), &list(&["c1", "c2"]))),
        "{\"success\":true,\"data\":[{\"id\":\"a\"}],\"categories\":[\"c1\",\"c2\"]}"
    );
}

// ---------------------------------------------------------------------------------- memory

#[test]
fn processes_that_the_system_needs_stay() {
    assert!(is_critical_process_name("CSRSS.exe") && is_critical_process_name("explorer"));
    assert!(!is_critical_process_name("notepad.exe"));
    assert_eq!(js_int(&v("12.0")), Some(12));
    assert_eq!(js_int(&v("12.5")), None);
    assert_eq!(js_int(&v("\" 7 \"")), Some(7));
    let mut snap = Slots::new();
    save_snapshot(&mut snap, "main", &items("[{\"Id\":5,\"ProcessName\":\"lsass\",\"Path\":\"C:\\\\x\"},{\"Id\":6,\"ProcessName\":\"notepad\",\"Path\":\"C:\\\\n.exe\"}]"));
    assert!(lookup_snapshot(&snap, "main", 6).is_some() && lookup_snapshot(&snap, "main", 7).is_none());
    for pid in ["5", "7", "1234", "\"x\""] {
        assert!(kill_gate(Some(&v(pid)), 1234, "me.exe", &snap, "main").is_err(), "{pid}");
    }
    assert_eq!(kill_gate(Some(&v("6")), 1234, "me.exe", &snap, "main").unwrap().name, "notepad");
    assert!(kill_gate(None, 1234, "me.exe", &snap, "main").is_err());
    assert!(kill_gate(Some(&v("6")), 1234, "me.exe", &snap, "other").is_err());
    save_snapshot(&mut snap, "other", &items("[{\"Id\":8,\"ProcessName\":\"b\",\"Path\":\"\"}]"));
    assert!(lookup_snapshot(&snap, "main", 6).is_some() && lookup_snapshot(&snap, "main", 8).is_none());
    assert!(lookup_snapshot(&snap, "other", 8).is_some() && lookup_snapshot(&snap, "other", 6).is_none());
    save_snapshot(&mut snap, "main", &items("[]"));
    assert!(lookup_snapshot(&snap, "main", 6).is_none() && lookup_snapshot(&snap, "other", 8).is_some());
    assert!(compact_text(&make_proc(3, "a", 9, "p")).contains("\"a\""));
}

#[test]
fn memory_is_freed_by_an_administrator() {
    assert!(clean_gate(&items("[\"standby\"]"), false).is_err());
    assert_eq!(clean_gate(&items("[\"standby\"]"), true).unwrap(), ["standby"]);
    assert!(stubborn_gate(false, true).is_some() && stubborn_gate(true, false).is_none());
    assert_eq!(clean_result("{\"error\":\"x\"}").flag("success"), Some(false));
    assert!(compact_text(&block_result(v("{\"success\":true}"))).contains("success"));
}

// ------------------------------------------------------------------------------------ misc

#[test]
fn traces_of_other_tools_are_found() {
    let seen = b"\"DWMBlurGlass.exe\",\"1\"\xff".to_vec();
    assert_eq!(detect_dwm_inject_tools(Some(&seen), false), Some("dwm-blur-tool".to_string()));
    assert_eq!(detect_dwm_inject_tools(Some(&b"none".to_vec()), true), Some("dwm-blur-task".to_string()));
    assert_eq!(detect_dwm_inject_tools(None, false), None);
    assert_eq!(compact_text(&dwm_reply(&None)), "{\"detected\":false,\"kind\":null}");
    assert_eq!(compact_text(&dwm_reply(&Some("k".to_string()))), "{\"detected\":true,\"kind\":\"k\"}");
}

#[test]
fn dialogs_have_short_names() {
    assert_eq!(modal_id(None), "modal");
    assert_eq!(modal_id(Some(&v("{\"title\":\"t\"}"))), "t");
    assert_eq!(modal_id(Some(&v("{\"id\":5,\"title\":\"t\"}"))), "modal");
    assert_eq!(modal_id(Some(&v(&format!("{{\"id\":\"{}\"}}", "中".repeat(50))))), "中".repeat(40));
    assert_eq!(compact_text(&intro_load("{\"a\":1}")), "{\"success\":true,\"data\":{\"a\":1}}");
    assert_eq!(message(&intro_load("{")), "本地简介库读取失败");
}

// -------------------------------------------------------------------------------- netcheck

fn scripts() -> Scripts {
    Scripts {
        enable_adapter: "Enable '__TRIM_ADAPTER_NAME__'".to_string(),
        reset_dns: "Reset 987654321".to_string(),
        start_dhcp: "dhcp".to_string(),
        start_dnscache: "dns".to_string(),
        disable_user_proxy: "proxy".to_string(),
        reset_winhttp: "winhttp".to_string(),
    }
}

const FOUND: &str = r#"[
 {"id":"x","repair":{"id":"reset-dns","interfaceIndex":12}},
 {"id":"y","repairs":[{"id":"enable-adapter","name":"E'th"},{"id":"disable-user-proxy"}]}
]"#;

#[test]
fn repairs_are_made_with_what_was_found() {
    let mut f = Slots::new();
    snapshot_store(&mut f, "main", items(FOUND));
    snapshot_store(&mut f, "other", items("[{\"id\":\"z\",\"repair\":{\"id\":\"start-dhcp\"}}]"));
    assert!(find_repair(&f, "main", "reset-dns").is_some() && find_repair(&f, "main", "start-dhcp").is_none());
    assert!(find_repair(&f, "other", "reset-dns").is_none() && find_repair(&f, "other", "start-dhcp").is_some());
    let r = repair_gate("disable-user-proxy", &f, "main", false).unwrap();
    assert_eq!(build_repair_script("disable-user-proxy", &r, &scripts()).unwrap(), "proxy");
    let e = repair_gate("reset-dns", &f, "main", false).unwrap_err();
    assert_eq!(e.flag("needAdmin"), Some(true));
    let r = repair_gate("reset-dns", &f, "main", true).unwrap();
    assert_eq!(build_repair_script("reset-dns", &r, &scripts()).unwrap(), "Reset 12");
    let r = repair_gate("enable-adapter", &f, "main", true).unwrap();
    assert_eq!(build_repair_script("enable-adapter", &r, &scripts()).unwrap(), "Enable 'E''th'");
    assert_eq!(message(&repair_gate("start-dhcp", &f, "main", true).unwrap_err()), "该修复动作不在当前检测快照内，请先重新检测");
    assert_eq!(message(&repair_gate("reset-dns", &f, "none", true).unwrap_err()), "该修复动作不在当前检测快照内，请先重新检测");
    assert_eq!(message(&repair_gate("", &f, "main", true).unwrap_err()), "参数不合法");
    assert_eq!(message(&repair_gate(&"a".repeat(41), &f, "main", true).unwrap_err()), "参数不合法");
}

#[test]
fn scripts_of_repairs_lose_their_marks() {
    let s = scripts();
    let why = |id: &str, r: &str| build_repair_script(id, &v(r), &s).unwrap_err();
    assert_eq!(why("enable-adapter", "{\"name\":\" \"}"), "缺少网卡名（应来自检测快照）");
    assert_eq!(why("reset-dns", "{\"interfaceIndex\":0}"), "缺少接口索引（应来自检测快照）");
    assert_eq!(why("x", "{}"), "未知的修复动作: x");
    assert_eq!(build_repair_script("start-dhcp", &v("{}"), &s).unwrap(), "dhcp");
    assert_eq!(build_repair_script("start-dnscache", &v("{}"), &s).unwrap(), "dns");
    assert_eq!(build_repair_script("reset-winhttp", &v("{}"), &s).unwrap(), "winhttp");
    assert_eq!(replace_sentinel("a", "M", "x").unwrap_err(), "修复脚本缺少哨兵");
    assert_eq!(replace_sentinel("aM", "M", "xM").unwrap_err(), "修复脚本哨兵替换失败");
    assert_eq!(replace_sentinel("aMM", "M", "x").unwrap(), "axx");
}

#[test]
fn the_outcome_of_a_check_is_the_last_object() {
    let o = collect_output(&ran(0, "noise\n{\"items\":[1]}\n{\"items\":[1,2]}\nend\n", ""));
    assert_eq!(compact_text(&o.unwrap()), "{\"items\":[1,2]}");
    let why = |out: &str, err: &str| collect_output(&ran(0, out, err)).unwrap_err();
    assert_eq!(why("", " boom "), "boom");
    assert_eq!(why("", ""), "网络检测无输出");
    assert_eq!(why("x", ""), "网络检测结果格式异常");
    assert_eq!(why("{x", ""), "网络检测解析失败: key must be a string at line 1 column 2");
    assert_eq!(why("{\"a\":1}", ""), "网络检测结果格式异常");
    assert_eq!(message(&collect_reply(Err("e".to_string()))), "e");
    assert_eq!(compact_text(&collect_reply(Ok(v("{}")))), "{\"success\":true,\"data\":{}}");
}

#[test]
fn the_outcome_of_a_repair_is_told() {
    assert_eq!(compact_text(&repair_output(&ran(0, "{\"ok\":true}", ""))), "{\"ok\":true}");
    assert_eq!(message(&repair_output(&ran(1, "", ""))), "修复无输出");
    assert_eq!(message(&repair_output(&ran(1, "", "e"))), "e");
    assert_eq!(compact_text(&native_output(Ok(v("{\"ok\":true}")))), "{\"ok\":true}");
    assert_eq!(
        message(&native_output(Ok(v("{\"ok\":false,\"message\":\"m\"}")))),
        "原生修复未成功（设 TRIM_LEGACY_NETCHECK=1 可回退 PS）: m"
    );
    assert_eq!(
        message(&native_output(Err("m".to_string()))),
        "原生修复异常（设 TRIM_LEGACY_NETCHECK=1 可回退 PS）: m"
    );
    assert_eq!(
        compact_text(&finish_repair(v("{\"ok\":true,\"message\":\"m\"}"), &Some(v("{\"items\":[]}")))),
        "{\"success\":true,\"fix\":{\"ok\":true,\"message\":\"m\"},\"items\":[],\"message\":\"m\"}"
    );
    assert_eq!(
        compact_text(&finish_repair(v("{}"), &None)),
        "{\"success\":false,\"fix\":{},\"items\":null,\"message\":null}"
    );
}

#[test]
fn what_the_program_did_itself_says_so() {
    assert_eq!(
        compact_text(&engine_reply(Ok(v("[1]")), "读取失败")),
        "{\"success\":true,\"data\":[1],\"engine\":\"rust\"}"
    );
    assert_eq!(message(&engine_reply(Err("e".to_string()), "读取失败")), "读取失败: e");
    assert_eq!(
        compact_text(&processes_reply(items("[{\"pid\":8}]"))),
        "{\"success\":true,\"processes\":[{\"pid\":8}],\"engine\":\"rust\"}"
    );
}

#[test]
fn every_window_keeps_its_own() {
    let mut s: Slots<u32> = Slots::new();
    assert_eq!(s.take("a"), None);
    s.set("a", 1);
    s.set("b", 2);
    s.set("a", 3);
    assert_eq!((s.get("a"), s.get("b"), s.get("c")), (Some(&3), Some(&2), None));
    assert_eq!(s.take("a"), Some(3));
    assert_eq!((s.take("a"), s.get("b")), (None, Some(&2)));
    s.clear();
    assert_eq!(s.get("b"), None);
}

#[test]
fn the_speed_of_the_network_is_measured_for_a_while() {
    let seconds = |t: &str| compact_text(&throughput_seconds(Some(&v(t))));
    for (t, want) in [("5", "5"), ("2.5", "2.5"), ("0", "10"), ("0.5", "1"), ("-3", "1"), ("61", "60"), ("59.9", "59.9"), ("null", "10"), ("\"5\"", "10")] {
        assert_eq!(seconds(t), want, "{t}");
    }
    assert_eq!(compact_text(&throughput_seconds(None)), "10");
    assert_eq!(
        compact_text(&netspeed_ping(Told::Value(v("[1]")))),
        "{\"success\":true,\"data\":[1],\"engine\":\"rust\"}"
    );
    let why = |j: Json| j.text("message").unwrap().to_string();
    assert_eq!(why(netspeed_ping(Told::Failed("e".to_string()))), "原生测速失败: e");
    assert_eq!(why(netspeed_ping(Told::Broken("e".to_string()))), "Ping 任务异常: e");
    assert_eq!(why(netspeed_throughput(Told::Broken("e".to_string()))), "测速任务异常: e");
}

#[test]
fn the_machine_and_the_log_are_told() {
    assert_eq!(compact_text(&device_scan(Told::Value(v("1")))), "{\"success\":true,\"data\":1}");
    assert_eq!(device_scan(Told::Failed("e".to_string())).text("message"), Some("原生采集失败: e"));
    assert_eq!(device_scan(Told::Broken("e".to_string())).text("message"), Some("采集任务异常: e"));
    assert_eq!(export_name(1700), "Trim-log-1700.txt");
    assert_eq!(log_export(None, Some("e")).text("message"), Some("已取消"));
    assert_eq!(log_export(Some("C:\\x"), Some("e")).text("message"), Some("e"));
    assert_eq!(compact_text(&log_export(Some("p"), None)), "{\"success\":true,\"path\":\"p\"}");
}
