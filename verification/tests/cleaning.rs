use trim_finder::cleanup_scan::{
    checklocked_json, emit_dism, get_blocked, measure_reg_rule, query_lockers, run, run_json, scan_body,
    test_rule_detect,
};
use trim_finder::deletable::{
    get_file_key_deletable, get_path_deletable_stats, list_deletable, to_long_path,
};
use trim_finder::glob::{expand_glob_dirs, join_path};
use trim_finder::json::{parse_json, Json};
use trim_finder::rulepath::{expand_env_path, resolve_rule_path, Env};
use trim_finder::wildcard::wildcard_match;
use trim_finder::world::{
    map_hive, process_names, program_name_of, reg_key_counts, reg_key_exists, Entry, Hive, Holder,
    Kind, RegKey, World,
};

fn env() -> Env {
    let v = |a: &str, b: &str| (a.to_string(), b.to_string());
    Env { vars: vec![v("LOCALAPPDATA", "C:\\L"), v("TEMP", "C:\\T"), v("EMPTY", "")], fold: true }
}

fn leaf(path: &str, size: u64) -> Entry {
    Entry {
        name: path.rsplit('\\').next().unwrap().to_string(),
        path: path.to_string(),
        kind: Kind::File,
        reparse: false,
        hidden: false,
        size,
        openable: true,
        long: None,
        children: None,
        problem: String::new(),
    }
}

fn dir(path: &str, c: Vec<Entry>) -> Entry {
    Entry { kind: Kind::Dir, children: Some(c), ..leaf(path, 0) }
}

fn world() -> World {
    let cache = || dir("C:\\L\\App\\Cache", vec![leaf("C:\\L\\App\\Cache\\1.tmp", 10), leaf("C:\\L\\App\\Cache\\2.log", 5)]);
    World {
        env: env(),
        places: vec![
            ("C:\\L".to_string(), dir("C:\\L", vec![dir("C:\\L\\App", vec![cache()]), dir("C:\\L\\Apple", vec![])])),
            ("C:\\L\\App".to_string(), dir("C:\\L\\App", vec![cache()])),
            ("C:\\L\\App\\Cache".to_string(), cache()),
            ("C:\\L\\App\\Cache\\1.tmp".to_string(), leaf("C:\\L\\App\\Cache\\1.tmp", 10)),
            ("C:\\L\\Apple".to_string(), dir("C:\\L\\Apple", vec![])),
            ("C:\\held".to_string(), Entry { openable: false, ..leaf("C:\\held", 1) }),
        ],
        keys: vec![RegKey { hive: Hive::CurrentUser, subkey: "Software\\App".to_string(), counts: Some((3, 2)) }],
        programs: vec!["chrome.exe".to_string()],
        holders: vec![(
            "C:\\held".to_string(),
            vec![Holder { pid: 42, app: "Editor".to_string(), kind: 1 }, Holder { pid: 7, app: "Core".to_string(), kind: 1000 }],
        )],
    }
}

#[test]
fn wildcards_match_whole_names() {
    assert!(wildcard_match("abc.TMP", "*.tmp"));
    assert!(wildcard_match("abc", "a?c"));
    assert!(!wildcard_match("abcd", "a?c"));
    assert!(wildcard_match("", "*"));
    assert!(wildcard_match("x", "x") && !wildcard_match("x", ""));
}

#[test]
fn paths_of_rules_are_sums() {
    assert_eq!(resolve_rule_path("$env:LOCALAPPDATA + '\\App'", &env()), Some("C:\\L\\App".to_string()));
    assert_eq!(resolve_rule_path("($env:TEMP + '\\a') + 'b''c'", &env()), Some("C:\\T\\ab'c".to_string()));
    assert_eq!(resolve_rule_path("$env:NOPE + 'x'", &env()), Some("x".to_string()));
    assert_eq!(resolve_rule_path("Remove-Item x", &env()), None);
    assert_eq!(resolve_rule_path("'a' +", &env()), None);
}

#[test]
fn a_sum_of_paths_is_one_behind_the_other() {
    let e = env();
    let value = |s: &str| resolve_rule_path(s, &e);
    for a in ["'x'", "$env:TEMP", "($env:TEMP + 'a')"] {
        for b in ["'y'", " $env:NOPE ", "'p' + 'q'"] {
            let both = value(&format!("{a}+{b}"));
            assert_eq!(both, Some(value(a).unwrap() + &value(b).unwrap()), "{a}+{b}");
        }
    }
    let many = |n: usize| vec!["'a'"; n].join("+");
    let last = (1..200).take_while(|n| value(&many(*n)).is_some()).last().unwrap();
    assert_eq!(value(&many(last)), Some("a".repeat(last)));
    assert_eq!(value(&many(last + 1)), None);
}

#[test]
fn references_to_variables_are_expanded() {
    assert_eq!(expand_env_path("%temp%\\x", &env()), "C:\\T\\x");
    assert_eq!(expand_env_path("%NOPE%\\x", &env()), "%NOPE%\\x");
    assert_eq!(expand_env_path("%EMPTY%\\x", &env()), "%EMPTY%\\x");
    assert_eq!(expand_env_path("100%", &env()), "100%");
}

#[test]
fn patterns_of_directories_are_expanded() {
    let w = world();
    assert_eq!(join_path("C:\\L\\", "App"), "C:\\L\\App");
    let mut d = expand_glob_dirs("C:\\L\\App*", false, &w);
    d.sort();
    assert_eq!(d, ["C:\\L\\App", "C:\\L\\Apple"]);
    assert!(expand_glob_dirs("C:\\L\\none*", false, &w).is_empty());
    assert_eq!(expand_glob_dirs("C:\\L\\App??", false, &w), ["C:\\L\\Apple"]);
    assert_eq!(expand_glob_dirs("C:\\L\\A?p", false, &w), ["C:\\L\\App"]);
    assert_eq!(expand_glob_dirs("C:\\L\\App", false, &w), ["C:\\L\\App"]);
}

#[test]
fn files_that_may_go_are_listed() {
    let w = world();
    let all = list_deletable("C:\\L\\App\\Cache", "*", &w);
    assert_eq!((all.files.len(), all.total), (2, 2));
    let some = list_deletable("C:\\L\\App\\Cache", "*.tmp", &w);
    assert_eq!(some.files, [("C:\\L\\App\\Cache\\1.tmp".to_string(), 10)]);
    let s = get_path_deletable_stats("C:\\L\\App\\Cache", &w);
    assert_eq!((s.ok, s.missing, s.size, s.nfiles, s.locked), (true, false, 15, 2, 0));
    assert!(get_path_deletable_stats("C:\\none", &w).missing);
    let mut shut = leaf("C:\\shut", 0);
    shut.kind = Kind::Dir;
    let mut w = w;
    w.places.push(("C:\\shut".to_string(), shut));
    let s = get_path_deletable_stats("C:\\shut", &w);
    assert!(!s.ok && !s.missing);
    assert_eq!(to_long_path("C:\\PROGRA~1", &Some("C:\\Program Files".to_string())), "C:\\Program Files");
    assert_eq!(to_long_path("C:\\x", &None), "C:\\x");
}

#[test]
fn keys_of_the_registry_are_found() {
    let w = world();
    assert!(matches!(map_hive("HKCU\\Software\\App"), Some((Hive::CurrentUser, _))));
    assert!(map_hive("X\\a").is_none());
    assert!(reg_key_exists("HKCU\\Software\\App", &w));
    assert!(!reg_key_exists("HKLM\\Software\\App", &w));
    assert_eq!(reg_key_counts("HKCU\\Software\\App", &w), Some((3, 2)));
    assert_eq!(program_name_of("Chrome.EXE"), "chrome");
    assert_eq!(process_names(&w), ["chrome"]);
}

const RULES: &str = r#"{"groups":[{"id":"g1","items":[
  {"id":"cache","name":"Cache","pathPs":"$env:LOCALAPPDATA + '\\App\\Cache'"},
  {"id":"gone","name":"Gone","pathPs":"$env:LOCALAPPDATA + '\\Nope'"},
  {"id":"bad","name":"Bad","pathPs":"rm -rf"}
]}]}"#;

#[test]
fn a_scan_tells_what_it_has_found() {
    let w = world();
    let argv = vec!["[\"cache\",\"gone\",\"bad\"]".to_string(), "{}".to_string()];
    let (code, out, err) = run_json(&argv, RULES, &w);
    assert_eq!(code, 0, "{err}");
    assert!(out.contains("\"id\":\"cache\""), "{out}");
    assert!(out.contains("\"path\":\"C:\\\\L\\\\App\\\\Cache\",\"pathSource\":\"configured\""), "{out}");
    assert!(out.contains("\"size\":15,\"lockedCount\":0"), "{out}");
    assert!(!out.contains("\"id\":\"gone\""), "{out}");
    assert!(!out.contains("\"id\":\"bad\"") && err.contains("bad"), "{out}{err}");
    let lines = scan_body(&argv, RULES, &w).unwrap();
    assert!(lines.out.iter().any(|l| l.starts_with("@@ITEM@@")));
}

#[test]
fn a_scan_without_rules_fails() {
    let w = world();
    let argv = vec!["[\"cache\",\"gone\",\"bad\"]".to_string(), "{}".to_string()];
    let (code, out, err) = run_json(&argv, "  ", &w);
    assert_eq!((code != 0, out.as_str()), (true, ""));
    assert!(err.contains("[cleanup-scan] 致命: 规则库解析失败"), "{err}");
    assert!(scan_body(&argv, "{", &w).is_err());
    let (code, _, _) = run(&argv, None, &w);
    assert_ne!(code, 0);
}

#[test]
fn programs_that_hold_a_file_are_told() {
    let w = world();
    let l = query_lockers("C:\\held", &w);
    assert_eq!(l.iter().map(|p| (p.pid, p.app.as_str(), p.critical)).collect::<Vec<_>>(), [(42, "Editor", false), (7, "Core", true)]);
    let (code, out, _) = checklocked_json(r#"{"files":[{"path":"C:\\held","id":"cache"}]}"#, &w);
    assert_eq!(code, 0);
    assert!(out.contains("@@LOCKED@@{\"path\":\"C:\\\\held\",\"id\":\"cache\",\"procs\":[{\"pid\":42,\"app\":\"Editor\",\"critical\":false}"), "{out}");
    assert!(out.contains("@@LOCKED_DONE@@{\"scanned\":1,\"locked\":1}"), "{out}");
    let (code, _, err) = checklocked_json("{", &w);
    assert_ne!(code, 0);
    assert!(err.contains("占用检测输入解析失败"), "{err}");
}

fn rule(text: &str) -> Json {
    parse_json(text).unwrap()
}

#[test]
fn a_rule_applies_where_its_program_is() {
    let w = world();
    let detected = |t: &str| test_rule_detect(&rule(t), &w);
    assert!(detected(r#"{"detect":[{"path":"C:\\none"},{"path":"%LOCALAPPDATA%\\App"}]}"#));
    assert!(detected(r#"{"detect":[{"path":"C:\\L\\App*"}]}"#));
    assert!(!detected(r#"{"detect":[{"path":"C:\\none"}]}"#));
    assert!(detected(r#"{"detect":[{"type":"reg","path":"HKCU\\Software\\App"}]}"#));
    assert!(!detected(r#"{"detect":[{"type":"reg","path":"HKLM\\Software\\App"}]}"#));
    assert!(detected(r#"{"fileKeys":[{"path":"C:\\L\\App"}]}"#));
    assert!(!detected(r#"{"fileKeys":[{"path":"C:\\none"}],"pathPs":"'C:\\L'"}"#));
    assert!(detected(r#"{"pathPs":"$env:LOCALAPPDATA+'\\App'"}"#));
    assert!(!detected(r#"{"pathPs":"'C:\\none'"}"#));
    assert!(detected(r#"{"pathPs":"no expression"}"#));
    assert!(!detected(r#"{"regKeys":[{"path":"HKCU\\none"}]}"#));
    assert!(detected("{}"));
}

#[test]
fn running_programs_block_a_rule() {
    let w = world();
    let running = process_names(&w);
    let r = rule(r#"{"requiredStoppedProcesses":["Chrome","other","",3]}"#);
    assert_eq!(get_blocked(&r, &running), ["Chrome"]);
    assert!(get_blocked(&rule("{}"), &running).is_empty());
}

#[test]
fn keys_of_the_registry_are_measured() {
    let w = world();
    let measured = |t: &str| measure_reg_rule(&rule(t), &w);
    assert_eq!(measured(r#"{"regKeys":[{"path":"HKCU\\Software\\App"}]}"#), (true, 6));
    assert_eq!(measured(r#"{"regKeys":[{"path":"HKCU\\Software\\App","value":"*"}]}"#), (true, 1));
    assert_eq!(measured(r#"{"regKeys":[{"path":"HKCU\\none"}]}"#), (false, 0));
}

#[test]
fn file_keys_plan_what_can_go() {
    let w = world();
    let found = |t: &str| {
        let mut rows = 0usize;
        let f = get_file_key_deletable(&rule(t), &mut rows, &w);
        assert_eq!(rows, f.files.len());
        (f.files.into_iter().map(|(p, n)| (p.rsplit('\\').next().unwrap().to_string(), n)).collect::<Vec<_>>(), f.total_size)
    };
    let one = |a: &str, n: u64| (a.to_string(), n);
    let both = vec![one("1.tmp", 10), one("2.log", 5)];
    assert_eq!(found(r#"{"fileKeys":[{"path":"C:\\L\\App"}]}"#), (both, 15));
    let tmp = vec![one("1.tmp", 10)];
    assert_eq!(found(r#"{"fileKeys":[{"path":"C:\\L\\App","pattern":"*.tmp"}]}"#), (tmp, 10));
    assert_eq!(found(r#"{"fileKeys":[{"path":"C:\\L\\App","recurse":false}]}"#), (vec![], 0));
    let log = vec![one("2.log", 5)];
    assert_eq!(
        found(r#"{"fileKeys":[{"path":"C:\\L\\App"}],"excludeKeys":[{"type":"file","path":"c:\\l\\app\\cache\\1.TMP"}]}"#),
        (log, 5)
    );
    assert_eq!(
        found(r#"{"fileKeys":[{"path":"C:\\L\\App"}],"excludeKeys":[{"type":"dir","path":"C:\\L\\App\\Cache\\"}]}"#),
        (vec![], 0)
    );
    let twice = vec![one("1.tmp", 10), one("2.log", 5)];
    assert_eq!(found(r#"{"fileKeys":[{"path":"C:\\L\\App"},{"path":"C:\\L\\App\\Cache"}]}"#), (twice, 15));
}

#[test]
fn the_component_store_is_always_offered() {
    assert_eq!(
        emit_dism("d", &rule(r#"{"risk":"low"}"#)),
        "@@ITEM@@{\"id\":\"d\",\"name\":\"d\",\"configuredPath\":\"C:\\\\Windows\\\\WinSxS\",\
         \"path\":\"C:\\\\Windows\\\\WinSxS\",\"pathSource\":\"configured\",\"pathCandidates\":[],\
         \"autoPath\":\"\",\"autoSize\":0,\"size\":0,\"risk\":\"low\",\"exists\":true,\"blockedBy\":[]}"
    );
}
