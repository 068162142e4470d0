use trim_finder::commands::fileclean::{
    classify, ext_of, finish_scan, in_scope, path_key, scope_owner, Scopes,
};
use trim_finder::value::{jtext, Fields};

#[test]
fn classify_extensions() {
    assert_eq!(classify("jpg"), Some("image"));
    assert_eq!(classify("JPG"), None);
    assert_eq!(classify("mp4"), Some("video"));
    assert_eq!(classify("tmp"), Some("cache"));
    assert_eq!(classify("dat"), Some("data"));
    assert_eq!(classify("db"), None);
    assert_eq!(classify("adb"), None);
    assert_eq!(classify("aes"), None);
    assert_eq!(classify("exe"), None);
}

#[test]
fn ext_lowercased() {
    assert_eq!(ext_of("PHOTO.JPG"), "jpg");
    assert_eq!(ext_of("noext"), "");
}

#[test]
fn path_key_normalizes_sep_case_trailing() {
    assert_eq!(path_key("C:/A/B/"), "c:\\a\\b");
    assert_eq!(path_key("c:\\a\\b"), "c:\\a\\b");
}

#[test]
fn path_key_folds_the_way_through_a_path() {
    assert_eq!(path_key("C:\\a\\..\\b"), "c:\\b");
    assert_eq!(path_key("C:\\a\\.\\b\\..\\..\\c"), "c:\\c");
    assert_eq!(path_key("C:\\..\\x"), "c:\\x");
    assert_eq!(path_key("C:\\a\\.."), "c:");
    assert_eq!(path_key("//srv/share/a"), "\\\\srv\\share\\a");
    assert_eq!(path_key("\\\\srv\\share\\..\\a"), "\\\\srv\\share\\a");
    assert_eq!(path_key("\\\\?\\C:\\a\\b"), "\\\\?\\c:\\a\\b");
    assert_eq!(path_key("a/./b"), "a\\b");
    assert_eq!(path_key("/a"), "\\a");
}

#[test]
fn preview_reads_main_slot_and_unknown_label_gets_nothing() {
    let mut scopes = Scopes::new();
    let found = Fields::new().with("path", jtext(r"C:\FakeQqRoot\photo.jpg")).object();
    finish_scan(&mut scopes, "main", "qq", r"C:\FakeQqRoot", vec![found], 0);

    assert_eq!(scope_owner("preview"), "main");
    let shared = scopes.get(scope_owner("preview"), "qq").expect("预览窗应读到主窗那次扫描的槽");
    assert!(in_scope(shared, r"C:\FakeQqRoot\photo.jpg"), "大小写/分隔符归一后仍须在范围内");
    assert!(!in_scope(shared, r"C:\Windows\x.jpg"), "范围外路径不得放行");

    assert_eq!(scope_owner("attacker"), "attacker");
    assert!(scopes.get(scope_owner("attacker"), "qq").is_none());
}
