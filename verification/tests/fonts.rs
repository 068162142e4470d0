use trim_finder::commands::fonts::{
    is_font_file_valid, path_to_file_url, sanitize_family, strip_font_ext,
};

#[test]
fn file_url_matches_node_shape() {
    assert_eq!(
        path_to_file_url("C:\\Users\\Admin\\AppData\\Roaming\\Trim\\fonts\\imported.ttf"),
        "file:///C:/Users/Admin/AppData/Roaming/Trim/fonts/imported.ttf"
    );
    assert_eq!(path_to_file_url("C:\\a b\\x.ttf"), "file:///C:/a%20b/x.ttf");
}

#[test]
fn family_sanitized_and_ext_stripped() {
    assert_eq!(sanitize_family("My'Font\\X"), "MyFontX");
    assert_eq!(strip_font_ext("MyFont.WOFF2"), "MyFont");
    assert_eq!(strip_font_ext("MyFont"), "MyFont");
}

#[test]
fn magic_check_rejects_garbage() {
    assert!(!is_font_file_valid(&b"not a font".to_vec()));
    assert!(is_font_file_valid(&vec![0x00u8, 0x01, 0x00, 0x00, 0xAA]));
    assert!(is_font_file_valid(&b"wOF2xxxx".to_vec()));
    assert!(is_font_file_valid(&b"wOFFxxxx".to_vec()));
    assert!(!is_font_file_valid(&b"wOFAxxxx".to_vec()));
}
