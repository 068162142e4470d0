use trim_finder::commands::fileclean::{
    check_root, config_key, configured_dir, default_dir, delete_gate, execute_gate, file_type,
    find_slot, finish_delete, finish_execute, finish_scan, image_file_gate, image_gate, image_mime,
    image_reply, in_scope, read_image, refuse_scan, slot_key, Found, Kind, Place, Removed, Scopes,
    Walk,
};
use trim_finder::commands::finder::{
    default_dup_dirs, delete_gate as finder_gate, delete_results, delete_targets, expand_vars,
    js_string, manifest_entries, may_remove, path_key, read_item, reply_deleted, reply_nothing_left,
    scan_dirs, scan_gate, scan_kind, scan_numbers, ScanKind, Slot, Standing,
};
use trim_finder::json::Json;
use trim_finder::protect::ProtectRoots;
use trim_finder::rulepath::Env;
use trim_finder::value::{compact_text, read_json};

fn v(t: &str) -> Json {
    read_json(t).expect(t)
}

fn items(t: &str) -> Vec<Json> {
    match v(t) {
        Json::Arr(a) => a,
        _ => panic!("no list"),
    }
}

fn message(j: &Json) -> &str {
    j.text("message").unwrap()
}

fn env() -> Env {
    Env { vars: vec![("USERPROFILE".to_string(), "C:\\Users\\me".to_string())], fold: true }
}

// ------------------------------------------------------------------------------------ finder

#[test]
fn scans_are_of_four_kinds() {
    assert!(matches!(scan_kind("duplicates"), Ok(ScanKind::Duplicates)));
    assert_eq!(message(&scan_kind("x").unwrap_err()), "未知扫描类型");
    let n = scan_numbers(ScanKind::BigFiles, &None, &Some(v("\"7\"")), &None);
    assert_eq!((n.min_size, n.count, n.min_size_mb), (0, 7, 10));
    let n = scan_numbers(ScanKind::BigFiles, &None, &Some(v("0")), &None);
    assert_eq!(n.count, 50);
    let n = scan_numbers(ScanKind::AppData, &None, &None, &Some(v("0.5")));
    assert_eq!(n.min_size_mb, 1);
    assert_eq!(message(&scan_gate(ScanKind::Duplicates, 1, 0).unwrap_err()), "指定的扫描目录均不存在，请检查路径");
    assert!(message(&scan_gate(ScanKind::Duplicates, 0, 0).unwrap_err()).starts_with("默认扫描目录均不存在"));
    assert_eq!(message(&scan_gate(ScanKind::Empty, 0, 0).unwrap_err()), "至少需要一个扫描目录");
    assert!(scan_gate(ScanKind::AppData, 0, 0).is_ok());
}

#[test]
fn directories_are_expanded() {
    assert_eq!(expand_vars("%USERPROFILE%\\x", &env()), "C:\\Users\\me\\x");
    assert_eq!(default_dup_dirs(&env())[0], "C:\\Users\\me\\Downloads");
    assert_eq!(scan_dirs(&items("[\"%USERPROFILE%\", \"\", 5]"), &env()), ["C:\\Users\\me", "5"]);
    assert_eq!((js_string(&v("null")), js_string(&v("true"))), ("null".to_string(), "true".to_string()));
    assert_eq!(path_key("\\\\?\\C:/A/../B/", None), "c:\\b");
    assert!(read_item("@@ITEM@@{\"a\":1}\n").is_some() && read_item("@@PROGRESS:1@@").is_none());
}

#[test]
fn only_what_was_found_is_deleted() {
    let mut s = Slot::new();
    s.store(&items("[{\"type\":\"bigfile\",\"path\":\"D:/a/f\"},{\"type\":\"emptyfolder\",\"path\":\"D:/e\"}]"), 5, None);
    assert!(s.get("d:\\a\\f").is_some());
    let t = delete_targets(&items("[{\"path\":\"d:\\\\A\\\\f\"},{\"path\":\"D:/e\"},{\"x\":1}]"), &s, None).unwrap();
    assert_eq!(t.iter().map(|e| (e.path.as_str(), e.dir, e.empty)).collect::<Vec<_>>(), [("D:/a/f", false, false), ("D:/e", true, true)]);
    assert_eq!(
        message(&delete_targets(&items("[{\"path\":\"D:/a/f\"},{\"path\":\"D:/z\"}]"), &s, None).unwrap_err()),
        "删除目标已过期，请重新扫描后再试"
    );
    assert_eq!(message(&delete_targets(&vec![], &s, None).unwrap_err()), "没有可删除的项");
    let free = ProtectRoots { subtree: vec![], exact: vec![], any_drive: vec![] };
    let held = ProtectRoots { subtree: vec!["d:\\a".to_string()], exact: vec![], any_drive: vec![] };
    assert!(finder_gate(&t, &vec![None, None], &free).is_ok());
    assert_eq!(message(&finder_gate(&t, &vec![None, None], &held).unwrap_err()), "包含受保护的系统路径，已拒绝：D:/a/f");
    assert!(may_remove(&t[0], Standing::File) && !may_remove(&t[0], Standing::Dir(0)));
    assert!(may_remove(&t[1], Standing::Dir(0)) && !may_remove(&t[1], Standing::Dir(1)));
    assert!(!may_remove(&t[1], Standing::Unseen));
}

#[test]
fn the_outcome_of_a_deletion_adds_up() {
    let rows = items("[{\"type\":\"delresult\",\"path\":\"D:/a\",\"kind\":\"file\",\"status\":\"ok\",\"freed\":5,\"mode\":\"recycled\"},{\"type\":\"delresult\",\"path\":\"D:/b\",\"status\":\"failed\",\"freed\":0},{\"type\":\"other\"}]");
    let d = delete_results(&rows);
    assert_eq!(d.len(), 2);
    let m = manifest_entries(&d);
    assert_eq!(compact_text(&m[0]), "{\"path\":\"D:\\\\a\",\"kind\":\"file\",\"size\":5,\"recycled\":true}");
    let r = reply_deleted(d, 4, "C:\\m.json");
    let data = r.get("data").unwrap();
    let n = |k: &str| compact_text(data.get(k).unwrap());
    assert_eq!((n("totalFreed"), n("success"), n("failed"), n("skipped"), n("recycled")), ("5".to_string(), "1".to_string(), "1".to_string(), "2".to_string(), "1".to_string()));
    assert_eq!(data.text("manifestPath"), Some("C:\\m.json"));
    assert!(compact_text(&reply_nothing_left(3)).contains("\"skipped\":3"));
}

// --------------------------------------------------------------------------------- fileclean

#[test]
fn the_directory_comes_from_the_settings() {
    assert_eq!(file_type(Some("qq")).unwrap(), "qq");
    assert!(file_type(Some("x")).is_err());
    let key = config_key("qq");
    let set = v(&format!("{{\"{key}\":\"D:\\\\q\"}}"));
    assert_eq!(configured_dir("qq", &set, None).unwrap(), "D:\\q");
    assert_eq!(configured_dir("qq", &v("{}"), Some("D:\\u")).unwrap(), "D:\\u");
    assert!(configured_dir("qq", &v("{}"), None).is_err());
    assert!(default_dir("qq", &env()).starts_with("C:\\Users\\me"));
    assert!(check_root(Place::PlainDir, None, "D:\\q").is_ok());
    assert!(check_root(Place::PlainDir, Some("D:/Q/"), "D:\\q").is_ok());
    assert_eq!(message(&check_root(Place::PlainDir, Some("D:\\z"), "D:\\q").unwrap_err()), "扫描路径必须来自已保存的路径配置，请先在设置中保存该路径");
    assert_eq!(message(&check_root(Place::Other, None, "D:\\q").unwrap_err()), "扫描路径必须是普通目录");
    assert_eq!(message(&refuse_scan("m")), "m");
    assert_eq!(slot_key("main", "qq"), "main:qq");
}

#[test]
fn a_walk_takes_plain_files_of_known_kinds() {
    let f = |name: &str, kind| Found { name: name.to_string(), exact: true, kind };
    let mut w = Walk::new("D:\\q");
    let (d, depth) = w.next().unwrap();
    assert_eq!((d.as_str(), depth), ("D:\\q", 0));
    w.visit(&d, depth, &vec![
        f("a.jpg", Kind::File { size: 5, mtime: 1 }),
        f("b.exe", Kind::File { size: 5, mtime: 1 }),
        Found { exact: false, ..f("c.jpg", Kind::File { size: 5, mtime: 1 }) },
        f("l.jpg", Kind::Link),
        f("sub", Kind::Dir),
        f("MsgAttach", Kind::Dir),
    ]);
    let (d, depth) = w.next().unwrap();
    assert_eq!((d.as_str(), depth), ("D:\\q\\sub", 1));
    w.visit(&d, depth, &vec![
        f("a.JPG", Kind::File { size: 5, mtime: 1 }),
        f("b.exe", Kind::File { size: 5, mtime: 1 }),
        f("u.jpg", Kind::Unread),
    ]);
    assert!(w.next().is_none());
    let (found, _, unhandled) = w.finish();
    assert_eq!((found.len(), unhandled), (1, 1));
    assert_eq!(
        compact_text(&found[0]),
        "{\"path\":\"D:\\\\q\\\\sub\\\\a.JPG\",\"name\":\"a.JPG\",\"size\":5,\"mtime\":\"1\",\"ext\":\"jpg\",\"category\":\"image\"}"
    );
}

#[test]
fn only_files_of_known_kinds_are_counted() {
    let f = |name: &str, kind| Found { name: name.to_string(), exact: true, kind };
    let mut w = Walk::new("D:\\q");
    let (d, depth) = w.next().unwrap();
    w.visit(&d, depth, &vec![f("d", Kind::Dir)]);
    let (d, depth) = w.next().unwrap();
    w.visit(&d, depth, &vec![f("a.exe", Kind::File { size: 5, mtime: 1 })]);
    assert!(w.next().is_none());
    let (found, scanned, unhandled) = w.finish();
    assert_eq!((found.len(), scanned, unhandled), (0, 0, 0));
}

fn scanned() -> Scopes {
    let mut s = Scopes::new();
    let found = items("[{\"path\":\"D:\\\\q\\\\a.jpg\",\"size\":5},{\"path\":\"D:\\\\q\\\\b.png\",\"size\":7}]");
    let (reply, _) = finish_scan(&mut s, "main", "qq", "D:\\q", found, 0);
    assert_eq!(reply.get("data").unwrap().text("totalSize"), Some("12"));
    s
}

#[test]
fn images_are_shown_in_scope() {
    let s = scanned();
    assert!(image_gate(&s, "preview", "D:\\q\\a.jpg").is_ok());
    assert_eq!(message(&image_gate(&s, "main", "D:\\z.jpg").unwrap_err()), "路径不在扫描范围内，已拒绝访问");
    assert_eq!(message(&image_gate(&s, "main", "").unwrap_err()), "文件不存在");
    assert_eq!(image_file_gate("a.JPG", Some(5)).unwrap(), "image/jpeg");
    assert_eq!(message(&image_file_gate("a.jpg", Some(10_485_761)).unwrap_err()), "文件过大，不支持预览");
    assert!(image_file_gate("a.txt", Some(5)).is_err() && image_file_gate("a.jpg", None).is_err());
    assert_eq!(image_mime("png"), Some("image/png"));
    let r = read_image("image/png", &Some(b"foo".to_vec()), 3);
    assert!(compact_text(&r).contains("data:image/png;base64,Zm9v"), "{}", compact_text(&r));
    assert!(compact_text(&image_reply("m", "t", 1)).contains('t'));
    assert_eq!(read_image("image/png", &None, 3).flag("success"), Some(false));
}

#[test]
fn what_is_deleted_is_forgotten() {
    let mut s = scanned();
    assert_eq!(delete_gate(&s, "main", "D:\\q\\a.jpg", true).unwrap(), "qq");
    assert_eq!(message(&delete_gate(&s, "main", "D:\\q\\a.jpg", false).unwrap_err()), "目标不是普通文件，已拒绝删除");
    assert_eq!(message(&delete_gate(&s, "main", "D:\\z", true).unwrap_err()), "路径不在扫描范围内，已拒绝删除");
    let (r, entry) = finish_delete(&mut s, "main", "qq", "D:\\q\\a.jpg", 5, &None, "b1");
    assert_eq!((r.flag("success"), entry.is_some()), (Some(true), true));
    assert!(find_slot(&s, "main", "D:\\q\\a.jpg").is_none());
    assert!(find_slot(&s, "main", "D:\\q\\b.png").is_some());
    assert!(in_scope(s.get("main", "qq").unwrap(), "D:\\q\\b.png"));
    let (r, _) = finish_delete(&mut s, "main", "qq", "D:\\q\\b.png", 5, &Some("busy".to_string()), "b1");
    assert_eq!(r.flag("success"), Some(false));
    assert!(find_slot(&s, "main", "D:\\q\\b.png").is_some());
}

#[test]
fn a_batch_is_deleted_whole_or_not_at_all() {
    let mut s = scanned();
    let two = items("[{\"path\":\"D:\\\\q\\\\a.jpg\"},{\"path\":\"D:\\\\q\\\\b.png\"}]");
    assert_eq!(message(&execute_gate(&s, "main", &vec![], &vec![]).unwrap_err()), "没有选中文件");
    assert_eq!(message(&execute_gate(&s, "main", &two, &vec![true, false]).unwrap_err()), "包含非普通文件，已拒绝整批");
    let foreign = items("[{\"path\":\"D:\\\\q\\\\a.jpg\"},{\"path\":\"D:\\\\z\"}]");
    assert!(execute_gate(&s, "main", &foreign, &vec![true, true]).is_err());
    let ty = execute_gate(&s, "main", &two, &vec![true, true]).unwrap();
    let res = vec![Removed { size: 5, failure: None }, Removed { size: 7, failure: Some("busy".to_string()) }];
    let (r, entries) = finish_execute(&mut s, "main", ty, &two, &res);
    assert_eq!(entries.len(), 1);
    assert!(compact_text(&r).contains('5'), "{}", compact_text(&r));
    assert!(find_slot(&s, "main", "D:\\q\\a.jpg").is_none());
    assert!(find_slot(&s, "main", "D:\\q\\b.png").is_some());
}
