use trim_finder::events::Event;
use trim_finder::protect::{
    contains_short_name, delete_outcome, delete_summary, fold_components, is_protected_path,
    lexically_normalize, may_delete, protect_flags, strip_prefix, ProtectRoots, Tally, Target, Trash,
};
use trim_finder::rulepath::Env;

fn env() -> Env {
    let v = |a: &str, b: &str| (a.to_string(), b.to_string());
    Env {
        vars: vec![v("SystemDrive", "C:"), v("USERPROFILE", "C:\\Users\\me"), v("WINDIR", "C:\\Windows")],
        fold: true,
    }
}

#[test]
fn paths_are_brought_to_a_normal_form() {
    assert_eq!(strip_prefix("\\\\?\\C:\\a"), "C:\\a");
    assert_eq!(strip_prefix("\\\\?\\UNC\\s\\d"), "\\\\s\\d");
    assert_eq!(fold_components(&vec!["a".to_string(), "..".to_string(), "b".to_string()]), ["b"]);
    assert_eq!(lexically_normalize("C:/A/./b/../C"), "c:\\a\\c");
    assert_eq!(lexically_normalize(r"\\?\UNC\Srv\Share\Dir\..\.\Sub"), r"\\srv\share\sub");
    assert_eq!(lexically_normalize(r"\\Srv\Share\..\..\x"), r"\\srv\share\x");
    assert!(contains_short_name("c:\\progra~1") && !contains_short_name("c:\\a~b"));
}

#[test]
fn what_the_system_needs_is_protected() {
    let e = env();
    let yes = |p: &str| is_protected_path(p, &None, None, &e);
    for p in ["C:\\", "C:", "c:\\windows", "C:\\Windows\\System32\\config\\SAM", "C:\\Users\\me", "C:\\Users\\me\\Documents", "C:\\Users", "C:\\progra~1\\x"] {
        assert!(yes(p), "{p}");
    }
    for p in ["C:\\Users\\me\\Documents\\a.txt", "D:\\x\\y"] {
        assert!(!yes(p), "{p}");
    }
    assert!(!is_protected_path("C:\\DOCUME~1\\x", &Some("D:\\data\\x".to_string()), None, &e));
}

#[test]
fn what_is_protected_can_be_given() {
    let e = env();
    let given = r#"{"subtree":["D:\\keep"],"exact":["D:\\one\\two"],"anyDrive":["$Recycle.Bin"]}"#;
    let v = |p: &str| (p.to_string(), None);
    assert_eq!(
        protect_flags(Some(given), &vec![v("D:\\keep\\a\\b"), v("D:\\one"), v("D:\\one\\two\\x"), v("E:\\$Recycle.Bin\\x"), v("E:\\x\\y")], &e),
        [true, true, false, true, false]
    );
    let r = ProtectRoots::from_protect_json("nonsense", &e);
    assert_eq!(r.exact, ProtectRoots::default_from_env(&e).exact);
    assert_eq!(ProtectRoots::from_given(None, &e).subtree, ProtectRoots::default_from_env(&e).subtree);
}

fn target(path: &str) -> Target {
    Target { kind: "file".to_string(), path: path.to_string(), exact_name: true, long: None, reparse: false, size: 10 }
}

#[test]
fn only_what_was_moved_frees_anything() {
    let e = env();
    let r = ProtectRoots::default_from_env(&e);
    let mut n = Tally { ok: 0, fail: 0, freed: 0 };
    let mut out = Vec::new();
    assert!(may_delete(&target("D:\\x\\a"), &r));
    delete_outcome(&target("D:\\x\\a"), &r, &Trash::Moved, &mut n, &mut out);
    assert!(!may_delete(&target("C:\\Windows"), &r));
    delete_outcome(&target("C:\\Windows"), &r, &Trash::Moved, &mut n, &mut out);
    delete_outcome(&target("D:\\x\\b"), &r, &Trash::Failed("busy".to_string()), &mut n, &mut out);
    assert_eq!((n.ok, n.fail, n.freed), (1, 2, 10));
    let line = delete_summary(&n, &mut out);
    assert!(line.contains("10"), "{line}");
    assert!(out.iter().any(|e| matches!(e, Event::Item { .. })));
}
