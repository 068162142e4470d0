use trim_finder::doc_groups::{wants_sketch, FileInfo};
use trim_finder::docx::{extract_docx_text, xml_to_text, zip_read_entry};
use trim_finder::duplicates::{duplicates, file_fp, gather, wants_print};
use trim_finder::events::Event;
use trim_finder::groups::{group_labels, label_keys};
use trim_finder::similar::{doc_sketch, jaccard, link_alike, normalize_text, shingle_set};
use trim_finder::world::{Entry, Kind};

fn zip(name: &str, method: u16, data: &[u8]) -> Vec<u8> {
    let packed = if method == 8 {
        miniz_oxide::deflate::compress_to_vec(data, 6)
    } else {
        data.to_vec()
    };
    let mut out = Vec::new();
    let two = |v: &mut Vec<u8>, n: u16| v.extend_from_slice(&n.to_le_bytes());
    let four = |v: &mut Vec<u8>, n: u32| v.extend_from_slice(&n.to_le_bytes());
    four(&mut out, 0x0403_4b50);
    two(&mut out, 20);
    two(&mut out, 0);
    two(&mut out, method);
    four(&mut out, 0);
    four(&mut out, 0);
    four(&mut out, packed.len() as u32);
    four(&mut out, data.len() as u32);
    two(&mut out, name.len() as u16);
    two(&mut out, 0);
    out.extend_from_slice(name.as_bytes());
    out.extend_from_slice(&packed);
    let at = out.len() as u32;
    four(&mut out, 0x0201_4b50);
    two(&mut out, 20);
    two(&mut out, 20);
    two(&mut out, 0);
    two(&mut out, method);
    four(&mut out, 0);
    four(&mut out, 0);
    four(&mut out, packed.len() as u32);
    four(&mut out, data.len() as u32);
    two(&mut out, name.len() as u16);
    two(&mut out, 0);
    two(&mut out, 0);
    two(&mut out, 0);
    two(&mut out, 0);
    four(&mut out, 0);
    four(&mut out, 0);
    out.extend_from_slice(name.as_bytes());
    let size = out.len() as u32 - at;
    four(&mut out, 0x0605_4b50);
    two(&mut out, 0);
    two(&mut out, 0);
    two(&mut out, 1);
    two(&mut out, 1);
    four(&mut out, size);
    four(&mut out, at);
    two(&mut out, 0);
    out
}

#[test]
fn an_entry_is_taken_out_of_an_archive() {
    let text = b"hello hello hello hello hello".to_vec();
    for method in [0, 8] {
        let z = zip("a.txt", method, &text);
        assert_eq!(zip_read_entry(&z, &b"a.txt".to_vec()), Some(text.clone()));
        assert_eq!(zip_read_entry(&z, &b"b.txt".to_vec()), None);
    }
    assert_eq!(zip_read_entry(&b"no archive".to_vec(), &b"a.txt".to_vec()), None);
}

#[test]
fn the_text_of_a_document_is_read() {
    let xml = "<w:document><w:p><w:t>a &amp; b</w:t></w:p><w:p><w:t>中</w:t></w:p></w:document>";
    let z = zip("word/document.xml", 8, xml.as_bytes());
    let t = extract_docx_text(&z).unwrap();
    assert!(t.contains("a & b") && t.contains("中") && !t.contains('<'), "{t}");
    assert_eq!(extract_docx_text(&zip("x.xml", 0, b"<a/>")), None);
    assert!(xml_to_text("<a>x</a>").contains('x'));
    assert_eq!(xml_to_text("<w:p><w:pPr></w:pPr>A&amp;B</w:p>"), "A&B\n");
    assert_eq!(xml_to_text("<w:p>A<w:br>B</w:p >"), "A\nB\n");
}

#[test]
fn texts_are_brought_to_a_normal_form() {
    assert_eq!(normalize_text("  Ä-B\n\n c!"), "äb c");
    assert_eq!(normalize_text("İ"), "i\u{307}");
    assert_eq!(normalize_text("A -b"), "a b");
    assert_eq!(normalize_text("a - , b"), "a b");
    assert_eq!(normalize_text("- a -"), "a");
}

fn prose(seed: u32, n: usize) -> String {
    let mut x = seed;
    let mut s = String::new();
    for _ in 0..n {
        x = x.wrapping_mul(1_664_525).wrapping_add(1_013_904_223);
        for k in 0..5 {
            s.push((b'a' + ((x >> (k * 5)) & 15) as u8) as char);
        }
        s.push(' ');
    }
    s
}

#[test]
fn similar_texts_have_most_in_common() {
    let a = prose(1, 200);
    let b = format!("{} one more line", a);
    let sa = shingle_set(&normalize_text(&a)).unwrap();
    let sb = doc_sketch("txt", &b.clone().into_bytes()).unwrap();
    let sc = shingle_set(&normalize_text(&prose(7, 200))).unwrap();
    let (both, all) = jaccard(&sa, &sb);
    assert!(both * 10 >= all * 8, "{both}/{all}");
    let (both, all) = jaccard(&sa, &sc);
    assert!(both * 10 < all * 8, "{both}/{all}");
    assert_eq!(jaccard(&sa, &sa), (sa.len() as u128, sa.len() as u128));
    assert!(shingle_set("too short").is_none());
    let (roots, pairs, cut) = link_alike(&vec![&sa, &sb, &sc]);
    assert_eq!(roots[0], roots[1]);
    assert_ne!(roots[0], roots[2]);
    assert_eq!(pairs.len(), 1);
    assert!(!cut);
}

#[test]
fn files_are_grouped_by_their_labels() {
    assert_eq!(
        label_keys(&vec![Some("x".to_string()), None, Some("y".to_string()), Some("x".to_string())]),
        [Some(0), None, Some(2), Some(0)]
    );
    assert_eq!(group_labels(&vec![Some(0), None, Some(2), Some(0)]), [vec![0, 3]]);
}

#[test]
fn a_print_is_that_of_blake3() {
    let p = file_fp(&Some(b"abc".to_vec())).unwrap();
    assert_eq!(p, *blake3::hash(b"abc").as_bytes());
    assert_eq!(p[..4], [0x64, 0x37, 0xb3, 0xac]);
    assert_eq!(file_fp(&None), None);
    assert!(wants_print(5, 5) && !wants_print(0, 0) && !wants_print(4, 5));
    assert_eq!(wants_sketch("a\\B.TXT", 300), Some("txt".to_string()));
    assert_eq!(wants_sketch("a\\b.txt", 255), None);
    assert_eq!(wants_sketch("a\\b.exe", 300), None);
}

fn file(path: &str, data: &[u8]) -> FileInfo {
    FileInfo {
        path: path.to_string(),
        size: data.len() as u64,
        print: file_fp(&Some(data.to_vec())),
        sketch: None,
    }
}

fn lines(out: &[Event]) -> Vec<String> {
    out.iter()
        .filter_map(|e| match e {
            Event::Item { line, .. } => Some(line.trim_end().to_string()),
            _ => None,
        })
        .collect()
}

#[test]
fn duplicates_are_found_by_content_and_by_name() {
    let files = vec![
        file("C:\\a\\one.bin", b"same"),
        file("C:\\b\\two.bin", b"same"),
        file("C:\\a\\n.txt", b"first"),
        file("C:\\b\\N.TXT", b"second!"),
        file("C:\\c\\empty.txt", b""),
    ];
    let mut out = Vec::new();
    duplicates(&files, 1, &mut out);
    assert_eq!(lines(&out), [
        "@@ITEM@@{\"type\":\"duplicate\",\"path\":\"C:/a/one.bin\",\"size\":4,\"group\":\"dupc0001\",\"role\":\"kept\",\"match\":\"content\"}",
        "@@ITEM@@{\"type\":\"duplicate\",\"path\":\"C:/b/two.bin\",\"size\":4,\"group\":\"dupc0001\",\"role\":\"candidate\",\"match\":\"content\"}",
        "@@ITEM@@{\"type\":\"duplicate\",\"path\":\"C:/a/n.txt\",\"size\":5,\"group\":\"dupn0002\",\"role\":\"kept\",\"match\":\"name\"}",
        "@@ITEM@@{\"type\":\"duplicate\",\"path\":\"C:/b/N.TXT\",\"size\":7,\"group\":\"dupn0002\",\"role\":\"candidate\",\"match\":\"name\"}",
        "@@ITEM@@{\"type\":\"emptyfile\",\"path\":\"C:/c/empty.txt\",\"size\":0}",
    ]);
    assert!(matches!(out.last(), Some(Event::Progress(100))));
}

#[test]
fn duplicates_are_found_among_documents() {
    let a = prose(1, 200);
    let b = format!("{} one more line", a);
    let doc = |path: &str, t: &str| FileInfo {
        path: path.to_string(),
        size: t.len() as u64,
        print: file_fp(&Some(t.as_bytes().to_vec())),
        sketch: doc_sketch("txt", &t.as_bytes().to_vec()),
    };
    let files = vec![doc("C:\\a.txt", &a), doc("C:\\b.txt", &b)];
    let mut out = Vec::new();
    duplicates(&files, 1, &mut out);
    let l = lines(&out);
    assert_eq!(l.len(), 2);
    assert!(l[0].contains("\"group\":\"dups0001\"") && l[0].contains("\"match\":\"similar\",\"sim\":\""), "{}", l[0]);
}

#[test]
fn every_root_is_gathered() {
    let leaf = |path: &str, size: u64| Entry {
        name: path.rsplit('\\').next().unwrap().to_string(),
        path: path.to_string(),
        kind: Kind::File,
        reparse: false,
        hidden: false,
        size,
        openable: true,
        long: None,
        children: None,
        problem: String::new(),
    };
    let dir = |path: &str, c: Vec<Entry>| Entry { kind: Kind::Dir, children: Some(c), ..leaf(path, 0) };
    let roots = vec![
        dir("C:\\x", vec![leaf("C:\\x\\1", 1), dir("C:\\x\\d", vec![leaf("C:\\x\\d\\2", 2)])]),
        dir("C:\\y", vec![leaf("C:\\y\\3", 3)]),
    ];
    let mut out = Vec::new();
    let mut all = gather(&roots, &mut out);
    all.sort();
    assert_eq!(all, [
        ("C:\\x\\1".to_string(), 1),
        ("C:\\x\\d\\2".to_string(), 2),
        ("C:\\y\\3".to_string(), 3)
    ]);
}
