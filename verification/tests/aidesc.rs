use trim_finder::commands::aidesc::{
    absolute_url, ai_cache_key, origin_of, prune_ai_cache, resolve_redirect,
};
use trim_finder::json::Json;
use trim_finder::md5::md5_hex;
use trim_finder::url::{parse_http_url, ParsedUrl};
use trim_finder::value::{compact_text, read_json};

#[test]
fn md5_matches_known_vectors() {
    assert_eq!(md5_hex(""), "d41d8cd98f00b204e9800998ecf8427e");
    assert_eq!(md5_hex("abc"), "900150983cd24fb0d6963f7d28e17f72");
    assert_eq!(
        md5_hex("The quick brown fox jumps over the lazy dog"),
        "9e107d9d372bb6826bd81d3542a419d6"
    );
}

#[test]
fn cache_key_shape() {
    let k = ai_cache_key("解压到当前文件夹", "WinRAR", "global:metaso:fast_thinking");
    assert_eq!(k.len(), 32);
    assert!(k.chars().all(|c| c.is_ascii_hexdigit()));
}

fn base() -> ParsedUrl {
    parse_http_url("https://api.example.com:8443/v1/chat").expect("基址必须可解析")
}

#[test]
fn location_back_to_this_machine_or_its_network_is_refused() {
    for loc in [
        "http://127.0.0.1:9999/",
        "http://localhost:9999/v1",
        "http://[::1]/x",
        "http://192.168.1.1/",
        "http://169.254.169.254/latest/meta-data/",
        "http://0177.0.0.1/",
        "http://[2002:7f00:1::]/",
    ] {
        assert!(resolve_redirect(&base(), "api.example.com", loc).is_err(), "{loc} 必须被拒");
    }
}

#[test]
fn other_host_and_downgrade_are_refused_too() {
    let b = base();
    assert!(resolve_redirect(&b, "api.example.com", "https://evil.example.org/steal").is_err());
    assert!(resolve_redirect(&b, "api.example.com", "//evil.example.org/steal").is_err());
    assert!(resolve_redirect(&b, "api.example.com", "http://api.example.com:8443/v1").is_err());
    for loc in ["", "   ", "ftp://api.example.com/x"] {
        assert!(resolve_redirect(&b, "api.example.com", loc).is_err(), "{loc} 不可跟随");
    }
}

#[test]
fn redirect_on_the_same_host_is_followed_and_completed() {
    let b = base();
    let next = resolve_redirect(&b, "api.example.com", "https://api.example.com:8443/v2/chat")
        .expect("同主机同协议的绝对址必须放行");
    assert_eq!(
        (next.host.as_str(), next.port, next.path.as_str()),
        ("api.example.com", 8443, "/v2/chat")
    );
    let abs = resolve_redirect(&b, "api.example.com", "/v1/completions").unwrap();
    assert_eq!(
        (abs.host.as_str(), abs.port, abs.path.as_str()),
        ("api.example.com", 8443, "/v1/completions")
    );
    let rel = resolve_redirect(&b, "api.example.com", "completions").unwrap();
    assert_eq!(rel.path, "/v1/completions");
    let proto = resolve_redirect(&b, "api.example.com", "//api.example.com:8443/v1").unwrap();
    assert_eq!((proto.host.as_str(), proto.secure), ("api.example.com", true));
}

#[test]
fn only_a_scheme_at_the_start_makes_an_address_complete() {
    let b = parse_http_url("https://api.example.com/v1/chat").unwrap();
    let full = |loc: &str| absolute_url(&b, loc);
    assert_eq!(
        full("/login?next=https://b.example/"),
        "https://api.example.com/login?next=https://b.example/"
    );
    assert_eq!(full("x?u=http://b/"), "https://api.example.com/v1/x?u=http://b/");
    assert_eq!(full("git+ssh://b/c"), "git+ssh://b/c");
    assert_eq!(full("//b.example/c"), "https://b.example/c");
}

#[test]
fn default_port_is_not_written_out() {
    let b = parse_http_url("https://api.example.com/v1/chat").unwrap();
    assert_eq!(origin_of(&b), "https://api.example.com");
    let n = resolve_redirect(&b, "api.example.com", "/v2/chat").unwrap();
    assert_eq!(n.port, 443);
    let v6 = parse_http_url("https://[2606:4700:4700::1111]/v1").unwrap();
    assert_eq!(origin_of(&v6), "https://[2606:4700:4700::1111]");
}

fn members(v: &Json) -> Vec<String> {
    match v {
        Json::Obj(m) => m.iter().map(|(k, _)| k.clone()).collect(),
        _ => panic!("no object"),
    }
}

#[test]
fn cache_drops_stale_and_malformed_entries_before_a_write() {
    let now: i64 = 1_760_000_000_000;
    let ttl = 7 * 24 * 60 * 60 * 1000;
    let cache = read_json(&format!(
        r#"{{
            "fresh": {{ "desc": "d", "timestamp": {} }},
            "expired": {{ "desc": "d", "timestamp": {} }},
            "边界外一秒": {{ "desc": "d", "timestamp": {} }},
            "没有timestamp": {{ "desc": "d" }},
            "时间戳不是数": {{ "desc": "d", "timestamp": "昨天" }},
            "条目不是对象": "随便一个字符串"
        }}"#,
        now - ttl / 2,
        now - ttl * 2,
        now - ttl - 1
    ))
    .unwrap();
    let (pruned, removed) = prune_ai_cache(&cache, now, ttl);
    assert_eq!(removed, 5, "除 fresh 之外全部该被淘汰");
    assert_eq!(members(&pruned), ["fresh"]);
    let all_fresh = read_json(&format!(
        r#"{{ "a": {{ "timestamp": {} }}, "b": {{ "timestamp": {} }} }}"#,
        now,
        now - ttl + 1
    ))
    .unwrap();
    let (kept, removed) = prune_ai_cache(&all_fresh, now, ttl);
    assert_eq!((removed, members(&kept).len()), (0, 2));
    let (v, removed) = prune_ai_cache(&read_json("[]").unwrap(), now, ttl);
    assert_eq!((compact_text(&v).as_str(), removed), ("{}", 0));
}
