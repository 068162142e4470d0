use trim_finder::url::{
    is_private_api_url, is_private_v4, is_private_v6, parse_http_url, read_v4, read_v6, V4,
};

#[test]
fn an_address_is_taken_apart() {
    let u = parse_http_url("HTTPS://Api.Example.com:8443/v1?x=1").unwrap();
    assert_eq!((u.scheme.as_str(), u.host.as_str(), u.port, u.path.as_str()), ("https", "api.example.com", 8443, "/v1?x=1"));
    assert!(u.secure);
    let p = parse_http_url("http://h").unwrap();
    assert_eq!((p.port, p.path.as_str(), p.secure), (80, "/", false));
    assert!(parse_http_url("ftp://h/").is_none());
    assert!(parse_http_url("nonsense").is_none());
}

#[test]
fn addresses_of_the_own_network_are_private() {
    for u in [
        "http://127.0.0.1/",
        "http://2130706433/",
        "http://0x7f.1/",
        "http://10.1.2.3/",
        "http://172.16.0.1/",
        "http://192.168.0.1/",
        "http://169.254.169.254/",
        "http://localhost/",
        "http://[::1]/",
        "http://[fe80::1]/",
        "http://[fd00::1]/",
        "http://[::ffff:127.0.0.1]/",
        "ftp://example.com/",
        "",
    ] {
        assert!(is_private_api_url(u), "{u}");
    }
    for u in ["https://api.example.com/", "http://8.8.8.8/", "https://172.32.0.1/", "https://[2606:4700::1]/"] {
        assert!(!is_private_api_url(u), "{u}");
    }
}

#[test]
fn numbers_of_addresses_are_read() {
    assert!(matches!(read_v4("0177.0.0.1"), V4::Addr(0x7f00_0001)));
    assert!(matches!(read_v4("1.2.3"), V4::Addr(0x0102_0003)));
    assert!(matches!(read_v4("256.0.0.1"), V4::Wrong));
    assert!(matches!(read_v4("example.com"), V4::Name));
    assert!(is_private_v4(0x7f00_0001) && !is_private_v4(0x0808_0808));
    assert_eq!(read_v6("::1"), Some(vec![0, 0, 0, 0, 0, 0, 0, 1]));
    assert_eq!(read_v6("1::2::3"), None);
    assert!(is_private_v6(&vec![0, 0, 0, 0, 0, 0, 0, 1]));
}
