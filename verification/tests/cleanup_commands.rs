use trim_finder::commands::cleanup::{finish_scan, native_scan, scan_categories, ScanAccum};
use trim_finder::commands::cleanup_detail::{
    end_target, finish_detail, item_detail, kill_reply, pid_allowed, retry_allowed,
    retry_failed_delete, Detail, Removal, Retry,
};
use trim_finder::commands::cleanup_execute::{
    execute_gate, finish_execute, fold_path, may_move, needs_rebuild, path_resolve, read_report,
    summarize_details, Move, Report,
};
use trim_finder::commands::cleanup_locks::{check_locked, watched_list};
use trim_finder::commands::rules::{
    apply_custom_toggles, build_detail_script, build_execute_script, build_scan_script,
    collect_items, find_cleanup_rule_by_id, load_paths_config, read_verified_data_rules,
    rules_value, safe_read_json, ExecuteFlags,
};
use trim_finder::commands::rules_update::{
    build_rules_sources, check_done, check_failed, distinct_sources, fetch_decide, raise_mark, update_done,
    raises_mark, update_failed, validate_remote_rules, version_in_use, Fetched,
};
use trim_finder::json::Json;
use trim_finder::protect::ProtectRoots;
use trim_finder::rulepath::Env;
use trim_finder::value::{compact_text, read_json};
use trim_finder::version::Version;
use trim_finder::world::{Entry, Holder, Kind, World};

fn v(t: &str) -> Json {
    read_json(t).expect(t)
}

fn items(t: &str) -> Vec<Json> {
    match v(t) {
        Json::Arr(a) => a,
        _ => panic!("no list"),
    }
}

fn message(j: &Json) -> &str {
    j.text("message").unwrap()
}

fn list(v: &[&str]) -> Vec<String> {
    v.iter().map(|s| s.to_string()).collect()
}

fn roots() -> ProtectRoots {
    ProtectRoots { subtree: list(&["c:\\windows"]), exact: vec![], any_drive: vec![] }
}

fn world() -> World {
    World {
        env: Env { vars: vec![], fold: true },
        places: vec![],
        keys: vec![],
        programs: vec![],
        holders: vec![],
    }
}

// --------------------------------------------------------------------------------- the scan

#[test]
fn the_lines_of_a_scan_are_taken_in() {
    let mut a = ScanAccum::new();
    let told = a.ingest_text("noise\n@@ITEM@@{\"id\":\"x\",\"size\":3}\n@@PLANFILE@@{\"id\":\"x\",\"path\":\"C:\\\\f\",\"size\":3}\r\n@@ITEM@@{\"id\":\"\"}\n@@ITEM@@broken", 2);
    assert_eq!(a.len(), 1);
    assert_eq!(told.len(), 1);
    assert_eq!(compact_text(&told[0]), "{\"done\":1,\"total\":2,\"item\":{\"id\":\"x\",\"size\":3}}");
    let more = a.ingest_text("@@ITEM@@{\"id\":\"z\"}", 2);
    assert_eq!(compact_text(&more[0]), "{\"done\":2,\"total\":2,\"item\":{\"id\":\"z\"}}");
    assert_eq!(
        compact_text(&a.items()[0]),
        "{\"id\":\"x\",\"size\":3,\"files\":[{\"path\":\"C:\\\\f\",\"size\":3}]}"
    );
    assert!(a.ingest_line("@@ITEM@@{\"id\":\"y\"}").is_some());
    assert!(a.ingest_line("y").is_none());
    let ok = finish_scan(0, "", &a);
    assert_eq!((ok.flag("success"), ok.array("data").unwrap().len()), (Some(true), 3));
    let bad = finish_scan(2, "", &a);
    assert_eq!((message(&bad), bad.array("data").unwrap().len()), ("扫描失败", 0));
    assert!(message(&finish_scan(2, " why ", &a)).contains("why"));
}

#[test]
fn categories_are_texts() {
    assert_eq!(scan_categories(&Some(v("[\"a\",\"b\"]"))).unwrap(), ["a", "b"]);
    for t in [None, Some(v("[]")), Some(v("[1]")), Some(v("{}"))] {
        assert_eq!(message(&scan_categories(&t).unwrap_err()), "清理分类参数无效");
    }
}

#[test]
fn a_scan_is_run_and_taken_in() {
    let rules = v("{\"groups\":[{\"items\":[{\"id\":\"d\",\"name\":\"D\",\"special\":\"dism\"}]}]}");
    let (code, a, _, told) = native_scan(&list(&["d"]), &v("{}"), &rules, &world());
    assert_eq!((code, a.len(), told.len()), (0, 1, 1));
    let (code, a, err, _) = native_scan(&list(&["d"]), &v("{}"), &v("{}"), &world());
    assert!(code != 0 && a.len() == 0 && !err.is_empty());
}

// ------------------------------------------------------------------------------- the cleanup

#[test]
fn only_what_was_found_is_cleaned_up() {
    let snap = items("[{\"id\":\"a\",\"path\":\"C:\\\\x\",\"size\":9}]");
    let ok = execute_gate(&Some(v("[{\"id\":\"a\",\"path\":\"C:/y/../x\",\"size\":1}]")), &snap, None).unwrap();
    assert_eq!(compact_text(&ok[0]), "{\"id\":\"a\",\"path\":\"C:\\\\x\",\"size\":9}");
    for t in ["[]", "{}", "[{\"id\":\"b\"}]", "[{\"id\":\"a\"},{\"id\":\"b\"}]", "[{\"id\":\"a\",\"path\":\"C:\\\\z\"}]"] {
        assert_eq!(message(&execute_gate(&Some(v(t)), &snap, None).unwrap_err()), "清理项不是最近一次扫描结果，已拒绝执行");
    }
    assert_eq!(fold_path("C:\\a\\.\\b\\..\\c"), "C:\\a\\c");
    assert_eq!(path_resolve("x", Some("C:\\w")), "C:\\w\\x");
    assert_eq!(fold_path("\\\\srv\\share\\a\\.."), "\\\\srv\\share");
    assert_eq!(fold_path(r"\\Srv/share\a\../..\b"), r"\\Srv\share\b");
    assert_eq!(path_resolve(r"\\srv\share\.\b", Some("C:\\w")), r"\\srv\share\b");
}

#[test]
fn the_report_of_a_cleanup_is_read() {
    let out = "@@RECYCLE@@{\"id\":\"a\",\"path\":\"C:\\\\f\",\"size\":5}\n{\"details\":[{\"id\":\"a\",\"status\":\"recycle\"},{\"id\":\"b\",\"status\":\"skip\"}]}";
    let r = read_report(0, out, "", "").unwrap();
    assert_eq!(r.entries.len(), 1);
    let (reply, again) = finish_execute(r, &vec![Move::Done], true);
    assert_eq!(reply.flag("success"), Some(true));
    let d = reply.get("data").unwrap();
    assert_eq!(compact_text(d.get("recycledBytes").unwrap()), "5");
    assert_eq!(compact_text(d.get("totalFreed").unwrap()), "0");
    assert_eq!(message(&d.array("details").unwrap()[0]), "已移入回收站（1 项，可在系统回收站还原）");
    assert!(again.is_empty());
    assert_eq!(message(&read_report(1, "", "e", "").map(|_| ()).unwrap_err()), "e");
    assert_eq!(message(&read_report(0, "broken", "", "").map(|_| ()).unwrap_err()), "解析结果失败");
}

#[test]
fn a_failed_move_is_told() {
    let data = v("{\"details\":[{\"id\":\"a\",\"status\":\"recycle\"}]}");
    let entries = items("[{\"id\":\"a\",\"path\":\"C:\\\\f\",\"size\":5}]");
    let (reply, again) = finish_execute(Report { data, entries }, &vec![Move::Failed], true);
    assert_eq!((reply.flag("success"), again.len()), (Some(false), 1));
    let d = reply.get("data").unwrap();
    assert_eq!(message(&d.array("details").unwrap()[0]), "移入回收站失败（可能被占用）");
    assert_eq!(d.array("trashFailures").unwrap().len(), 1);
}

#[test]
fn protected_paths_are_not_moved() {
    assert!(!may_move(&v("{\"path\":\"C:\\\\Windows\\\\x\"}"), &None, &roots()));
    assert!(may_move(&v("{\"path\":\"D:\\\\x\"}"), &None, &roots()));
    assert!(needs_rebuild(&v("{\"path\":\"D:\\\\x\",\"isDir\":true,\"rebuild\":true}"), Move::Done, true)
        || !needs_rebuild(&v("{\"path\":\"D:\\\\x\"}"), Move::Failed, true));
    assert_eq!(
        summarize_details(&v("{\"details\":[{\"status\":\"ok\",\"freed\":3},{\"status\":\"partial\",\"freed\":4},{\"status\":\"skip\"}]}")),
        (7, 1, 1, 1)
    );
}

// ------------------------------------------------------------------------------- the details

#[test]
fn details_come_from_the_plan_or_a_script() {
    let snap = items("[{\"id\":\"a\",\"path\":\"C:\\\\x\",\"files\":[{\"path\":\"C:\\\\x\\\\1\",\"size\":2}]}]");
    let rules = v("{\"groups\":[{\"items\":[{\"id\":\"a\",\"fileKeys\":[{\"path\":\"x\"}]},{\"id\":\"p\",\"pathPs\":\"'x'\"}]}]}");
    match item_detail(None, None, &snap, &rules, "t") {
        Detail::Reply(r) => assert_eq!(message(&r), "参数无效"),
        Detail::Script(_) => panic!("a script"),
    }
    assert_eq!(message(&finish_detail(1, "", "")), "明细枚举失败");
}

#[test]
fn a_retry_spares_what_is_protected() {
    let t = items("[{\"path\":\"C:\\\\Windows\\\\a\",\"size\":1},{\"path\":\"D:\\\\b\",\"size\":2}]");
    assert!(!retry_allowed(&t[0], true, &None, &roots()));
    assert!(retry_allowed(&t[1], true, &None, &roots()));
    let f = |r| Retry { exists: true, long: None, size: 2, removal: r };
    let r = retry_failed_delete(&t, &vec![f(Removal::Done), f(Removal::Done)], &roots());
    let text = compact_text(&r);
    assert!(text.contains("受保护路径，已拒绝"), "{text}");
    assert_eq!(message(&retry_failed_delete(&vec![], &vec![], &roots())), "没有待重试的失败项");
}

#[test]
fn the_own_process_and_those_of_the_system_are_not_ended() {
    assert_eq!(end_target(&v("{\"pid\":1234}"), 1234), None);
    assert_eq!(end_target(&v("{\"pid\":5678}"), 1234), Some(5678));
    assert_eq!(end_target(&v("{}"), 1234), Some(-1));
    assert!(!pid_allowed(0) && !pid_allowed(-1) && pid_allowed(5678));
    let r = kill_reply(
        &items("[{\"pid\":5678},{\"pid\":1234},{\"pid\":9}]"),
        &vec![Ok(()), Ok(()), Err("no".to_string())],
        1234,
    );
    assert_eq!(
        compact_text(&r),
        "{\"success\":true,\"killed\":[{\"pid\":5678}],\"failed\":[{\"pid\":9,\"message\":\"no\"}]}"
    );
}

// ---------------------------------------------------------------------------------- the locks

#[test]
fn held_files_are_looked_for_among_what_was_found() {
    let snap = items("[{\"id\":\"a\",\"files\":[{\"path\":\"C:\\\\f\",\"size\":1}]},{\"id\":\"b\",\"files\":[]}]");
    let l = watched_list(&Some(v("[\"a\"]")), &snap);
    assert_eq!(l.len(), 1);
    let (reply, procs) = check_locked(l, 1, &world());
    assert_eq!(reply.flag("success"), Some(true));
    assert!(procs.is_empty());
}

#[test]
fn critical_programs_are_shown_and_not_offered() {
    let held = Entry {
        name: "f".to_string(),
        path: "C:\\f".to_string(),
        kind: Kind::File,
        reparse: false,
        hidden: false,
        size: 1,
        openable: false,
        long: None,
        children: None,
        problem: String::new(),
    };
    let holder = |pid: u32, app: &str, kind: u32| Holder { pid, app: app.to_string(), kind };
    let w = World {
        places: vec![("C:\\f".to_string(), held)],
        holders: vec![(
            "C:\\f".to_string(),
            vec![holder(42, "Editor", 1), holder(7, "Core", 1000), holder(9, "Windows Explorer", 1)],
        )],
        ..world()
    };
    let snap = items("[{\"id\":\"a\",\"files\":[{\"path\":\"C:\\\\f\",\"size\":1}]}]");
    let (reply, procs) = check_locked(watched_list(&Some(v("[\"a\"]")), &snap), 1, &w);
    let shown = compact_text(reply.get("procs").unwrap());
    assert_eq!(
        shown,
        "[{\"pid\":42,\"app\":\"Editor\",\"critical\":false},{\"pid\":7,\"app\":\"Core\",\"critical\":true},\
         {\"pid\":9,\"app\":\"Windows Explorer\",\"critical\":true}]"
    );
    assert_eq!(procs.iter().map(|p| compact_text(p)).collect::<Vec<_>>(), [
        "{\"pid\":42,\"app\":\"Editor\",\"critical\":false}"
    ]);
}

// ---------------------------------------------------------------------------------- the rules

const RULES: &str = "{\"rulesVersion\":3,\"groups\":[{\"id\":\"g\",\"items\":[{\"id\":\"a\",\"name\":\"A\"}],\"subGroups\":[{\"items\":[{\"id\":\"b\",\"name\":\"B\"}]}]}]}";

#[test]
fn rules_are_found_by_their_names() {
    let r = v(RULES);
    assert!(find_cleanup_rule_by_id(&r, "b").is_some());
    assert!(find_cleanup_rule_by_id(&r, "z").is_none());
    assert!(!collect_items(&r).is_empty());
}

#[test]
fn scripts_are_filled_once() {
    let t = "${SCAN_CATEGORIES_JSON_PLACEHOLDER}|${FASTSIZE_DLL_PLACEHOLDER}";
    let s = build_scan_script(t, &list(&["a'b"]), &v("{}"), &v("{}"), "C:\\d'll");
    assert!(s.contains("C:\\d''ll"), "{s}");
    let e = build_execute_script(
        t,
        &items("[{\"id\":\"a\"}]"),
        ExecuteFlags { force: true, to_recycle: false, auto_rebuild: true },
        &v("{}"),
        "{}",
        "x",
    );
    assert!(e.contains('x'));
    assert_eq!(build_detail_script("plain", "id", "p", &v("{}")), "plain");
}

#[test]
fn switches_change_one_member_only() {
    let mut r = v(RULES);
    let before = compact_text(&r);
    assert!(apply_custom_toggles(&mut r, &v("{}")));
    assert_eq!(compact_text(&r), before);
    assert!(!apply_custom_toggles(&mut r, &v("{\"groups\":[{\"items\":[{\"id\":\"b\",\"enabled\":false,\"path\":\"x\"}]}]}")));
    assert_eq!(compact_text(&r), before);
    assert!(apply_custom_toggles(&mut r, &v("{\"groups\":[{\"items\":[{\"id\":\"b\",\"enabled\":false},{\"id\":\"z\",\"enabled\":true}]}]}")));
    assert_eq!(
        compact_text(&r),
        before.replace("{\"id\":\"b\",\"name\":\"B\"}", "{\"id\":\"b\",\"name\":\"B\",\"enabled\":false}")
    );
}

#[test]
fn rules_of_the_user_must_be_signed() {
    let low = Version::none();
    let high = Version::read(Some(&v("1e6")));
    assert!(read_verified_data_rules(Some(RULES), true, &low).is_some());
    assert!(read_verified_data_rules(Some(RULES), false, &low).is_none());
    assert!(read_verified_data_rules(Some(RULES), true, &high).is_none());
    assert!(read_verified_data_rules(None, true, &low).is_none());
    assert!(safe_read_json("{").is_none());
    assert_eq!(compact_text(&load_paths_config(Some("[1]"))), compact_text(&load_paths_config(None)));
    let built = rules_value(None, RULES, &vec![]);
    assert_eq!(compact_text(built.get("rulesVersion").unwrap()), "3");
}

#[test]
fn rules_from_afar_are_held_to_their_form() {
    let same = Version::read(Some(&v("3")));
    let held = Version::read(Some(&v("\" 3.50 \"")));
    let big = format!("{{\"rulesVersion\":3,\"pad\":\"{}\",\"groups\":[{{\"items\":[{{\"id\":\"a\",\"name\":\"A\"}}]}}]}}", "x".repeat(5000));
    assert_eq!(validate_remote_rules(&big, &Ok(()), &same).unwrap().text(), "3");
    let why = |t: &str, c: &Version| validate_remote_rules(t, &Ok(()), c).unwrap_err();
    assert_eq!(why("x", &same), "内容过小，疑似异常响应");
    assert!(validate_remote_rules(&big, &Err("sig".to_string()), &same).is_err());
    assert_eq!(why(&big, &held), "下载版本(3)低于当前版本(3.5)，已拒绝（防降级）");
    let nameless = big.replace("\"name\":\"A\"", "\"n\":\"A\"");
    assert_eq!(why(&nameless, &same), "条目缺少 id/name 字段");
    let broken = format!("{{{}", "x".repeat(5000));
    assert!(why(&broken, &same).contains("JSON 解析失败"));
    let bare = format!("{{\"pad\":\"{}\"}}", "x".repeat(5000));
    assert!(why(&bare, &same).contains("缺少 groups 结构"));
}

#[test]
fn versions_are_compared_as_numbers() {
    let n = |t: &str| Version::read(Some(&v(t)));
    for (a, b) in [("9", "10"), ("2.5", "2.50001"), ("-3", "-2"), ("-1", "0"), ("0", "1e-3"), ("9.9", "1e1")] {
        assert!(n(a).is_below(&n(b)) && !n(b).is_below(&n(a)), "{a} {b}");
    }
    for (a, b) in [("1.0", "1"), ("0", "-0"), ("100", "1e2"), ("\"7\"", "7"), ("null", "0"), ("\"x\"", "0")] {
        assert!(!n(a).is_below(&n(b)) && !n(b).is_below(&n(a)), "{a} {b}");
    }
    for (a, t) in [("42", "42"), ("\"42\"", "42"), ("0", "0"), ("1.50", "1.5"), ("-2", "-2"), ("1e3", "1000"), ("5e-2", "0.05"), ("-0.0", "0")] {
        assert_eq!(n(a).text(), t);
    }
    assert_eq!(version_in_use(&v("{\"rulesVersion\":4}"), Version::read_mark(Some(&v("6")))).text(), "6");
    assert_eq!(version_in_use(&v("{\"rulesVersion\":4}"), Version::read_mark(Some(&v("-6")))).text(), "4");
    assert!(raises_mark(&n("7"), &n("6")) && !raises_mark(&n("6"), &n("6")) && !raises_mark(&n("-1"), &n("-2")));
}

#[test]
fn the_first_good_source_is_taken() {
    assert_eq!(distinct_sources(&list(&["a", "b", "a"])), ["a", "b"]);
    assert!(matches!(fetch_decide(&vec![Err("x".to_string()), Ok(())], &None), Fetched::Source(1)));
    assert!(matches!(fetch_decide(&vec![Err("x".to_string())], &Some(Ok(()))), Fetched::Git));
    assert!(matches!(fetch_decide(&vec![Err("x".to_string())], &None), Fetched::Nothing(_)));
    assert_eq!(update_failed("e", false).flag("success"), Some(false));
    assert_eq!(update_done(RULES, &Version::read(Some(&v("3"))), "s").flag("success"), Some(true));
    assert!(compact_text(&check_failed(&v(RULES), &Version::read(Some(&v("3"))), "e")).contains("e"));
    let at = |t: &str| Version::read(Some(&v(t)));
    let newer = |a: &str, b: &str| check_done(&v(RULES), &at(a), &at(b), RULES, "s").flag("hasUpdate");
    let told = compact_text(&update_done(RULES, &at("42"), "s"));
    assert!(told.starts_with("{\"success\":true,\"rulesVersion\":42.0,"), "{told}");
    assert_eq!(
        raise_mark(&at("7"), &at("6.5"), "T").map(|j| compact_text(&j)),
        Some("{\"rulesVersion\":7.0,\"at\":\"T\"}".to_string())
    );
    assert!(raise_mark(&at("6"), &at("6"), "T").is_none() && raise_mark(&at("-1"), &at("-2"), "T").is_none());
    assert_eq!((newer("3", "4"), newer("4", "4"), newer("10", "9")), (Some(true), Some(false), Some(false)));
    let (urls, headers) = build_rules_sources(&None);
    assert!(!urls.is_empty() || headers.is_empty());
}

#[test]
fn version_text() {
    assert_eq!(Version::read(Some(&v("\"42\""))).text(), "42");
    assert_eq!(Version::read(Some(&v("0"))).text(), "0");
}
