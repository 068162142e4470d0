use trim_finder::commands::contextmenu::{
    answer_from_cache, apply_toggle, backup_gate, backup_result, blocked_result, drop_from_cache,
    drop_from_snapshot, expand_root, files_result, gone_items, icon_request, icons_result,
    inject_items, load_cache, make_cache, may_trash, native_result, normalize_ids, parse_last_json,
    path_key, regedit_gate, regedit_result, regedit_script, registry_result, remove_gate,
    remove_reply, restart_result, restore_result, scan_output, snapshot_by_id, snapshot_items,
    sort_out, toggle_gate, toggle_output, toggle_reply, win11_action, win11_result, win11_script,
    FileFact, PsOutput,
};
use trim_finder::json::Json;
use trim_finder::protect::ProtectRoots;
use trim_finder::value::{compact_text, read_json};

fn v(t: &str) -> Json {
    read_json(t).expect(t)
}

fn items(t: &str) -> Vec<Json> {
    match v(t) {
        Json::Arr(a) => a,
        _ => panic!("no list"),
    }
}

fn message(j: &Json) -> &str {
    j.text("message").unwrap()
}

fn ran(code: i32, stdout: &str, stderr: &str) -> PsOutput {
    PsOutput { code, timed_out: false, stdout: stdout.to_string(), stderr: stderr.to_string() }
}

fn roots() -> ProtectRoots {
    ProtectRoots { subtree: vec!["c:\\windows".to_string()], exact: vec![], any_drive: vec![] }
}

const FOUND: &str = r#"[
 {"id":"u","regPath":"HKCU\\Software\\Classes\\u","nativeRegPath":"HKCU\\Software\\Classes\\u","source":"registry"},
 {"id":"m","regPath":"HKLM\\Software\\Classes\\m","nativeRegPath":"HKLM\\Software\\Classes\\m","source":"registry"},
 {"id":"f","source":"filesystem","regPath":"D:\\s\\f.lnk","nativeRegPath":"D:\\s\\f.lnk"}
]"#;

#[test]
fn a_scan_is_kept_and_answered_from() {
    let ok = scan_output(&ran(0, "noise\n[{\"id\":\"a\"}]\n", "")).unwrap();
    assert_eq!(ok.len(), 1);
    assert!(scan_output(&ran(1, "", "")).is_err());
    let late = PsOutput { timed_out: true, ..ran(1, "", "") };
    assert_eq!(message(&scan_output(&late).unwrap_err()), "扫描超时（超过 60 秒），请稍后重试或关闭其他占用注册表的程序");
    let c = make_cache(5, items(FOUND));
    assert_eq!(load_cache(&c).unwrap().len(), 3);
    assert!(answer_from_cache(Some(true), &c).is_none());
    let (reply, snap) = answer_from_cache(None, &c).unwrap();
    assert_eq!(reply.flag("success"), Some(true));
    assert_eq!(snapshot_items(&snap).len(), 3);
    assert!(load_cache(&v("{}")).is_none());
    assert_eq!(compact_text(&parse_last_json("a\n{\"x\":1}\nb").unwrap()), "{\"x\":1}");
    assert!(!normalize_ids(&items("[{\"id\":\"a\"},{\"id\":\"a\"}]")).is_empty());
    assert_eq!(path_key("HKCU/A\\"), path_key("hkcu\\a"));
}

#[test]
fn entries_of_the_machine_need_an_administrator() {
    let snap = snapshot_by_id(&items(FOUND));
    assert!(remove_gate(&items("[{\"id\":\"u\"}]"), Some(&snap), false).is_ok());
    assert_eq!(
        message(&remove_gate(&items("[{\"id\":\"m\"}]"), Some(&snap), false).unwrap_err()),
        "涉及系统级右键菜单的操作需要管理员权限，请先提权"
    );
    assert!(remove_gate(&items("[{\"id\":\"m\"}]"), Some(&snap), true).is_ok());
    assert_eq!(
        message(&remove_gate(&items("[{\"id\":\"u\"},{\"id\":\"z\"}]"), Some(&snap), true).unwrap_err()),
        "删除项不是最近一次扫描结果，已拒绝执行"
    );
    let bare = snapshot_by_id(&items("[{\"id\":\"b\"}]"));
    assert_eq!(
        message(&toggle_gate(&items("[{\"id\":\"b\"}]"), Some(&bare), true).unwrap_err()),
        "没有可切换的菜单项"
    );
    assert_eq!(
        message(&toggle_gate(&items("[{\"id\":\"z\"}]"), Some(&snap), true).unwrap_err()),
        "切换项不是最近一次扫描结果，已拒绝执行"
    );
    assert_eq!(
        message(&backup_gate(&items("[{\"id\":\"z\"}]"), Some(&snap)).unwrap_err()),
        "备份项不是最近一次扫描结果，已拒绝执行"
    );
    assert!(backup_gate(&items("[{\"id\":\"u\"}]"), Some(&snap)).is_ok());
}

#[test]
fn files_and_keys_go_separate_ways() {
    let all = items(FOUND);
    assert_eq!(sort_out(&all, true).len(), 1);
    assert_eq!(sort_out(&all, false).len(), 2);
    assert!(may_trash(&all[2], &None, &roots()));
    let held = v("{\"id\":\"h\",\"source\":\"filesystem\",\"regPath\":\"C:\\\\Windows\\\\x.lnk\"}");
    assert!(!may_trash(&held, &None, &roots()));
    let d = registry_result(false, &None).unwrap_or_else(|e| panic!("{}", compact_text(&e)));
    let files = vec![all.into_iter().nth(2).unwrap(), held];
    let fact = || FileFact { long: None, failure: None };
    let (d, moved) = files_result(d, &files, &vec![fact(), fact()], &roots(), "now");
    assert_eq!(moved.len(), 1);
    assert!(compact_text(&d).contains("该路径受保护，已拒绝删除"), "{}", compact_text(&d));
    assert_eq!(gone_items(&d), ["f"]);
    let snap = snapshot_by_id(&items(FOUND));
    let left = drop_from_snapshot(snap, &gone_items(&d));
    assert_eq!(snapshot_items(&left).len(), 2);
    assert_eq!(drop_from_cache(&items(FOUND), &vec!["f".to_string()]).len(), 2);
    assert!(remove_reply(d).flag("success").is_some());
    assert!(registry_result(true, &Some(ran(1, "", "e"))).is_err());
}

#[test]
fn a_switch_is_put_down() {
    let snap = snapshot_by_id(&items("[{\"id\":\"u\",\"enabled\":true}]"));
    let told = toggle_output(&ran(0, "{\"success\":true,\"results\":[{\"id\":\"u\",\"success\":true,\"enabled\":false}]}", ""));
    let told = told.unwrap_or_else(|e| panic!("{}", compact_text(&e)));
    let (next, _changed) = apply_toggle(snap, &told, &items("[{\"id\":\"u\",\"enable\":false}]"));
    assert_eq!(snapshot_items(&next).len(), 1);
    assert!(toggle_reply(told).flag("success").is_some());
    assert!(toggle_output(&ran(1, "", "")).is_err());
}

#[test]
fn a_backup_without_files_is_none() {
    assert_eq!(message(&backup_result(1, "")), "备份失败");
    assert_eq!(message(&backup_result(0, "x")), "解析备份结果失败");
    assert_eq!(message(&restore_result(1, "")), "恢复失败");
    assert_eq!(message(&restore_result(0, "x")), "解析恢复结果失败");
}

#[test]
fn the_editor_is_opened_on_found_keys_only() {
    let snap = snapshot_by_id(&items(FOUND));
    assert_eq!(message(&regedit_gate(None, Some(&snap)).unwrap_err()), "无效的注册表路径");
    assert_eq!(
        message(&regedit_gate(Some("HKLM\\SAM"), Some(&snap)).unwrap_err()),
        "路径不在最近一次扫描结果内，已拒绝打开"
    );
    let key = regedit_gate(Some("HKCU\\Software\\Classes\\u"), Some(&snap)).unwrap();
    assert_eq!(key, "HKEY_CURRENT_USER\\Software\\Classes\\u");
    assert!(regedit_script("HKEY_CURRENT_USER\\a'b").contains("a''b"));
    assert_eq!(message(&regedit_result(1, "")), "打开注册表编辑器失败");
    assert_eq!(expand_root("HKLM\\x"), "HKEY_LOCAL_MACHINE\\x");
}

#[test]
fn icons_are_asked_for_what_was_found() {
    let snap = snapshot_by_id(&items("[{\"id\":\"c\",\"clsid\":\"{aB}\"}]"));
    let r = icon_request(&items("[{\"clsid\":\" {Ab} \"},{\"clsid\":\"{CD}\"},{\"clsid\":\"ab\"}]"), &snap);
    assert_eq!(r.iter().map(compact_text).collect::<Vec<_>>(), ["{\"clsid\":\"{Ab}\"}"]);
    assert!(icons_result(&None).flag("success").is_some());
}

#[test]
fn the_rest_of_the_menu_answers() {
    assert_eq!(inject_items("x=[\"__TRIM_ITEMS_JSON__\"]", items("[{\"id\":\"a\"}]")), "x=[{\"id\":\"a\"}]");
    assert!(restart_result(&ran(1, "", "")).flag("success") == Some(false));
    let late = PsOutput { timed_out: true, ..ran(1, "", "") };
    assert_eq!(message(&restart_result(&late)), "重启超时，请手动结束并重新打开资源管理器");
    assert_eq!(compact_text(&native_result(v("{\"success\":true}"))), "{\"success\":true,\"data\":{\"success\":true}}");
    assert_eq!(native_result(v("{\"a\":1}")).flag("success"), Some(false));
    assert_ne!(win11_action(Some("enable")), "");
    assert_eq!(win11_action(Some("nonsense")), win11_action(None));
    assert!(!win11_script("t", "query").is_empty());
    assert_eq!(message(&win11_result(1, "")), "读取或切换 Win11 菜单模式失败");
    assert!(blocked_result(1, "").flag("success").is_some());
}
