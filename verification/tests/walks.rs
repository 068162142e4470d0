use trim_finder::duplicates::gather;
use trim_finder::empty::{empty, load_empty_ignore, parent};
use trim_finder::events::{bump_scanned, item_with, plain_item, progress, unix_path, Event};
use trim_finder::scan::{appdata, bigfiles, child_dir_sizes, dir_size, expand_tasks, sizes};
use trim_finder::world::{Entry, Kind};

fn leaf(path: &str, size: u64) -> Entry {
    Entry {
        name: path.rsplit('\\').next().unwrap().to_string(),
        path: path.to_string(),
        kind: Kind::File,
        reparse: false,
        hidden: false,
        size,
        openable: true,
        long: None,
        children: None,
        problem: String::new(),
    }
}

fn dir(path: &str, c: Vec<Entry>) -> Entry {
    Entry { kind: Kind::Dir, children: Some(c), ..leaf(path, 0) }
}

fn lines(out: &[Event]) -> Vec<String> {
    out.iter()
        .filter_map(|e| match e {
            Event::Item { line, .. } => Some(line.trim_end().to_string()),
            _ => None,
        })
        .collect()
}

#[test]
fn paths_are_shown_with_slashes() {
    assert_eq!(unix_path("\\\\?\\C:\\a\\b"), "C:/a/b");
    assert!(matches!(progress(7), Event::Progress(7)));
    let e = item_with("k", "C:\\a\"b", 5, "x", "y".to_string());
    assert_eq!(lines(&[e]), ["@@ITEM@@{\"type\":\"k\",\"path\":\"C:/a\\\"b\",\"size\":5,\"x\":\"y\"}"]);
    assert_eq!(lines(&[plain_item("k", "C:\\a", 5)]), ["@@ITEM@@{\"type\":\"k\",\"path\":\"C:/a\",\"size\":5}"]);
}

#[test]
fn an_item_is_one_line_whatever_its_path_holds() {
    for path in ["C:\\a\nb", "\r\n@@ITEM@@", "C:\\\u{1}\"\\\n"] {
        match item_with("k", path, 5, "x", "y\nz".to_string()) {
            Event::Item { line, .. } => {
                assert!(line.ends_with('\n') && line.matches('\n').count() == 1, "{line:?}");
            }
            _ => panic!("no item"),
        }
    }
}

#[test]
fn what_was_told_before_stays() {
    let roots = vec![dir("C:\\x", vec![leaf("C:\\x\\a", 10)])];
    let mut out = vec![Event::Scanned(3)];
    assert_eq!(gather(&roots, &mut out), [("C:\\x\\a".to_string(), 10)]);
    assert!(matches!(out[0], Event::Scanned(3)));
}

#[test]
fn the_heart_beats_when_a_threshold_is_passed() {
    let mut out = Vec::new();
    let mut n: u64 = 0;
    bump_scanned(&mut n, 8191, &mut out);
    assert!(out.is_empty());
    bump_scanned(&mut n, 1, &mut out);
    assert!(matches!(out[..], [Event::Scanned(8192)]));
}

#[test]
fn the_largest_files_of_all_roots_are_listed() {
    let roots = vec![
        dir("C:\\x", vec![leaf("C:\\x\\a", 10), leaf("C:\\x\\b", 30)]),
        dir("C:\\y", vec![leaf("C:\\y\\c", 20)]),
    ];
    let out = bigfiles(&roots, 2);
    let l = lines(&out);
    assert_eq!(l.len(), 2);
    assert!(l[0].contains("C:/x/b") && l[1].contains("C:/y/c"), "{l:?}");
}

#[test]
fn a_directory_that_cannot_be_read_is_told() {
    let bad = Entry { children: None, problem: "no".to_string(), ..dir("C:\\z", vec![]) };
    let mut out = Vec::new();
    gather(&vec![bad], &mut out);
    assert!(out.iter().any(|e| matches!(e, Event::Warn(_))));
}

#[test]
fn links_are_not_followed() {
    let link = Entry { reparse: true, ..dir("C:\\x\\l", vec![leaf("C:\\x\\l\\f", 99)]) };
    let root = dir("C:\\x", vec![leaf("C:\\x\\a", 1), link]);
    assert_eq!(dir_size(&root), 1);
    assert!(lines(&bigfiles(&vec![root], 5)).iter().all(|l| !l.contains("l/f")));
}

#[test]
fn the_sizes_of_directories_are_added_up() {
    let root = dir("C:\\x", vec![
        dir("C:\\x\\p", vec![leaf("C:\\x\\p\\1", 5), dir("C:\\x\\p\\q", vec![leaf("C:\\x\\p\\q\\2", 7)])]),
        dir("C:\\x\\r", vec![]),
        leaf("C:\\x\\f", 100),
    ]);
    assert_eq!(dir_size(&root), 112);
    let mut c = child_dir_sizes(&root);
    c.sort();
    assert_eq!(c, [("C:\\x\\p".to_string(), 12)]);
    let out = sizes(&vec![("C:\\x".to_string(), Some(root)), ("C:\\none".to_string(), None)]);
    let l = lines(&out);
    assert!(l[0].contains("\"size\":112"), "{l:?}");
}

#[test]
fn large_application_data_is_listed() {
    let mb = 1_048_576;
    let local = dir("C:\\L", vec![
        dir("C:\\L\\big", vec![leaf("C:\\L\\big\\f", 30 * mb)]),
        dir("C:\\L\\small", vec![leaf("C:\\L\\small\\f", mb)]),
    ]);
    let out = appdata(20, Some(&local), None);
    let l = lines(&out);
    assert_eq!(l.len(), 1);
    assert!(l[0].contains("C:/L/big") && l[0].contains(&format!("\"size\":{}", 30 * mb)), "{l:?}");
}

#[test]
fn every_directory_of_a_task_is_walked_once() {
    let root = dir("C:\\x", vec![dir("C:\\x\\a", vec![dir("C:\\x\\a\\b", vec![])]), dir("C:\\x\\c", vec![])]);
    let mut tasks = Vec::new();
    expand_tasks(&root, &mut tasks);
    assert!(!tasks.is_empty());
    assert_eq!(tasks.iter().filter(|(e, _)| e.path == "C:\\x").count(), 1);
}

#[test]
fn empty_directories_are_folded_into_the_outermost() {
    let root = dir("C:\\x", vec![
        dir("C:\\x\\e", vec![dir("C:\\x\\e\\f", vec![])]),
        dir("C:\\x\\full", vec![leaf("C:\\x\\full\\1", 1)]),
        leaf("C:\\x\\zero", 0),
    ]);
    let out = empty(&vec![root], &load_empty_ignore(&vec![]));
    let l = lines(&out);
    assert!(l.iter().any(|x| x.contains("\"path\":\"C:/x/e\"")), "{l:?}");
    assert!(!l.iter().any(|x| x.contains("C:/x/e/f")), "{l:?}");
    assert!(l.iter().any(|x| x.contains("C:/x/zero")), "{l:?}");
    assert_eq!(parent("C:\\x\\e"), Some("C:\\x".to_string()));
}

#[test]
fn ignored_directories_are_known_with_and_without_the_long_mark() {
    let tree = |mark: &str| {
        let p = |rest: &str| format!("{mark}C:\\x{rest}");
        vec![dir(&p(""), vec![dir(&p("\\e"), vec![]), dir(&p("\\k"), vec![])])]
    };
    let ignore = load_empty_ignore(&vec!["C:\\X\\E".to_string()]);
    for mark in ["", "\\\\?\\"] {
        let l = lines(&empty(&tree(mark), &ignore));
        assert!(l.iter().any(|x| x.contains("C:/x/k")), "{l:?}");
        assert!(!l.iter().any(|x| x.contains("C:/x/e")), "{l:?}");
    }
}
