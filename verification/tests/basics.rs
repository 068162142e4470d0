use trim_finder::clock::{date_of, iso_now, pad};
use trim_finder::json::{jopt_str, json_escape, jstr, parse_json, Json};
use trim_finder::numbers::{read_number, round_nearest, signed_decimal, tenths, thousandths};
use trim_finder::order::{order_desc, push_topk};
use trim_finder::paths::{absolute, extension, file_name, path_join};
use trim_finder::text::{
    byte_len, decimal, drop_empty, ends_with, find_from, has, join, lines, replace_all,
    replace_char, skip_chars, split, starts_with, strip_front, take_chars, to_ascii_lower,
    to_ascii_upper, trim, trim_trailing,
};
use trim_finder::value::{
    compact_text, finite_number, integer, jcount, jint, js_truthy, read_json, set_member, size_in,
    try_json, whole_number, write_json,
};

fn list(v: &[&str]) -> Vec<String> {
    v.iter().map(|s| s.to_string()).collect()
}

#[test]
fn texts_are_taken_apart_and_put_together() {
    assert_eq!(split("a/b\\c", '/', '\\'), ["a", "b", "c"]);
    assert_eq!(split("", '/', '/'), [""]);
    assert_eq!(join(&list(&["a", "b", "c"]), ", "), "a, b, c");
    assert_eq!(join(&list(&[]), ", "), "");
    assert_eq!(lines("a\r\nb\n\nc"), ["a", "b", "", "c"]);
    assert_eq!(lines("a\n"), ["a"]);
    assert_eq!(drop_empty(list(&["", "x", ""])), ["x"]);
    assert_eq!(take_chars("中文字", 2), "中文");
    assert_eq!(take_chars("a", 2), "a");
    assert_eq!(skip_chars("中文字", 1), "文字");
}

#[test]
fn texts_are_searched() {
    assert!(starts_with("abc", "ab") && !starts_with("ab", "abc"));
    assert!(ends_with("abc", "bc") && !ends_with("bc", "abc"));
    assert!(has("abc", "b") && has("abc", "") && !has("abc", "ac"));
    assert_eq!(strip_front("abc", "ab"), Some("c".to_string()));
    assert_eq!(strip_front("abc", "b"), None);
    let a: Vec<char> = "abab".chars().collect();
    let p: Vec<char> = "ab".chars().collect();
    assert_eq!(find_from(&a, &p, 1), Some(2));
    assert_eq!(find_from(&a, &p, 3), None);
}

#[test]
fn texts_are_changed() {
    assert_eq!(replace_char("a/b/c", '/', '\\'), "a\\b\\c");
    assert_eq!(replace_all("aaa", "aa", "b"), "ba");
    assert_eq!(replace_all("abc", "x", "y"), "abc");
    assert_eq!(to_ascii_lower("ÄBc"), "Äbc");
    assert_eq!(to_ascii_upper("äbC"), "äBC");
    assert_eq!(trim_trailing("a//\\", '/', '\\'), "a");
}

#[test]
fn white_space_is_that_of_unicode() {
    assert_eq!(trim("\u{3000} a b\t\n"), "a b");
    assert_eq!(trim("\u{200b}a"), "\u{200b}a");
}

#[test]
fn bytes_are_those_of_utf8() {
    assert_eq!(byte_len("a中😀é"), 1 + 3 + 4 + 2);
}

#[test]
fn numbers_are_read_and_written() {
    assert_eq!(read_number("+12"), Some(12));
    assert_eq!(read_number("18446744073709551615"), Some(u64::MAX));
    assert_eq!(read_number("18446744073709551616"), None);
    assert_eq!(read_number("-1"), None);
    assert_eq!(read_number(""), None);
    assert_eq!(decimal(0), "0");
    assert_eq!(decimal(u64::MAX), "18446744073709551615");
    assert_eq!(signed_decimal(i32::MIN), "-2147483648");
    assert_eq!((round_nearest(5, 2), round_nearest(7, 2)), (2, 4));
    assert_eq!(round_nearest(4, 3), 1);
    assert_eq!(tenths(123), "12.3");
    assert_eq!(thousandths(1005), "1.005");
}

#[test]
fn dates_follow_the_calendar() {
    assert_eq!(date_of(0), (1970, 1, 1));
    assert_eq!(date_of(11_016), (2000, 2, 29));
    assert_eq!(pad(7, 3), "007");
    assert_eq!(pad(12345, 3), "12345");
    assert_eq!(iso_now(0), "1970-01-01T00:00:00.000Z");
    assert_eq!(iso_now(1_760_000_000_123), "2025-10-09T08:53:20.123Z");
}

#[test]
fn paths_have_names_and_extensions() {
    assert_eq!(file_name(r"C:\a\b.txt"), Some("b.txt".to_string()));
    assert_eq!(file_name(r"C:\"), None);
    assert_eq!(extension(r"C:\a\b.tar.gz"), Some("gz".to_string()));
    assert_eq!(extension(r"C:\a\.bashrc"), None);
    assert!(absolute(r"C:\a") && !absolute(r"a\b"));
    assert_eq!(path_join(r"C:\a", "b"), r"C:\a\b");
    assert_eq!(path_join(r"C:\a\", "b"), r"C:\a\b");
}

#[test]
fn json_texts_are_read() {
    let v = parse_json(" {\"a\": [1, -2.5e3, true, null], \"b\": \"x\\u4e2d\\n\\ud83d\\ude00\"} ")
        .unwrap();
    assert_eq!(compact_text(&v), "{\"a\":[1,-2.5e3,true,null],\"b\":\"x中\\n😀\"}");
    assert_eq!(v.text("b"), Some("x中\n😀"));
    assert_eq!(v.array("a").map(|a| a.len()), Some(4));
    for wrong in ["", "{", "[1,]", "{\"a\"}", "01x", "\"a", "nul", "{} {}"] {
        assert!(parse_json(wrong).is_err(), "{wrong}");
    }
}

#[test]
fn json_texts_are_written_so_that_they_read_back() {
    assert_eq!(json_escape("a\"\\\n\t\u{1}"), "a\\\"\\\\\\n\\t\\u0001");
    assert_eq!(jstr("中"), "\"中\"");
    assert_eq!(jopt_str(None), "null");
    assert_eq!(jopt_str(Some("a")), "\"a\"");
    for s in ["", "plain", "q\"b\\n\n\r\t\u{7}\u{1f}中😀/"] {
        assert_eq!(parse_json(&jstr(s)).unwrap().as_str(), Some(s));
    }
}

#[test]
fn texts_are_escaped_piece_by_piece_and_stay_in_one_line() {
    for (a, b) in [("", "x"), ("q\"", "\n"), ("a\\", "\u{1}\r\n中")] {
        let both = json_escape(&format!("{a}{b}"));
        assert_eq!(both, format!("{}{}", json_escape(a), json_escape(b)));
        assert!(both.chars().all(|c| c >= ' '));
    }
}

#[test]
fn what_is_nested_too_deep_is_written_as_it_stands() {
    let nested = |n: usize| (0..n).fold(Json::Num("1.50".to_string()), |v, _| Json::Arr(vec![v]));
    let text = |n: usize, x: &str| format!("{}{x}{}", "[".repeat(n), "]".repeat(n));
    assert_eq!(write_json(&nested(20)), text(20, "1.5"));
    assert_eq!(write_json(&nested(200)), text(200, "1.50"));
}

#[test]
fn values_take_the_form_of_serde_json() {
    assert_eq!(write_json(&read_json(" { \"b\" : 1.50 , \"a\" : 1E2 } ").unwrap()), "{\"b\":1.5,\"a\":100.0}");
    assert_eq!(compact_text(&read_json("{\"a\":1,\"a\":2}").unwrap()), "{\"a\":2}");
    assert!(read_json("{a:1}").is_none());
    assert_eq!(
        try_json("[").unwrap_err(),
        "EOF while parsing a list at line 1 column 1"
    );
}

#[test]
fn a_member_is_set_and_the_others_stay() {
    let o = read_json("{\"a\":1,\"b\":2}").unwrap();
    let o = set_member(o, "a", Json::Bool(true));
    let o = set_member(o, "c", Json::Null);
    assert_eq!(compact_text(&o), "{\"a\":true,\"b\":2,\"c\":null}");
    assert_eq!(compact_text(&set_member(Json::Null, "a", Json::Null)), "null");
}

#[test]
fn numbers_in_values_are_cut_off() {
    let n = |t: &str| read_json(t).unwrap();
    assert_eq!(whole_number(Some(&n("12.9"))), 12);
    assert_eq!(whole_number(Some(&n("\" 7 \""))), 7);
    assert_eq!(whole_number(Some(&n("-3.7"))), -3);
    assert_eq!(whole_number(Some(&n("\"x\""))), 0);
    assert_eq!(whole_number(None), 0);
    assert_eq!(size_in(Some(&n("1e3"))), 1000);
    assert_eq!(size_in(Some(&n("-5"))), 0);
    assert_eq!(finite_number(Some(&n("null"))), Some(0));
    assert_eq!(finite_number(Some(&n("\"x\""))), None);
    assert_eq!(integer(Some(&n("42"))), Some(42));
    assert_eq!(integer(Some(&n("42.5"))), None);
    assert!(js_truthy(&n("\"0\"")) && !js_truthy(&n("\"\"")) && !js_truthy(&n("0.0")));
    assert_eq!(compact_text(&jcount(5)), "5");
    assert_eq!(compact_text(&jint(-5)), "-5");
}

#[test]
fn the_largest_come_first_and_equal_ones_in_their_order() {
    assert_eq!(order_desc(&vec![3, 9, 3, 1, 9]), [1, 4, 0, 2, 3]);
    let mut top: Vec<(String, u64)> = Vec::new();
    for (p, s) in [("a", 1), ("b", 5), ("c", 3), ("d", 4)] {
        push_topk(&mut top, s, p.to_string(), 2);
    }
    let mut kept: Vec<u64> = top.iter().map(|x| x.1).collect();
    kept.sort();
    assert_eq!(kept, [4, 5]);
}

#[test]
fn a_written_value_is_read_back() {
    let text = "{\"a\":[1,-2.5e3,{}],\"\\\"\\n\":{\"b\":null,\"c\":[]},\"d\":true,\"e\":\"\\u0001\\\\\"}";
    let once = compact_text(&parse_json(text).unwrap());
    assert_eq!(once, text);
    assert_eq!(compact_text(&parse_json(&once).unwrap()), once);
}
