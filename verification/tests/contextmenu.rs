use trim_finder::commands::contextmenu::{
    canon_reg_key, check_restore_script, is_file_source, restore_admin_gate, snapshot_by_id, validate_snapshot_items,
    write_needs_admin,
};
use trim_finder::json::Json;
use trim_finder::value::read_json;

fn v(text: &str) -> Json {
    read_json(text).expect(text)
}

#[test]
fn admin_scope_uses_native_hive() {
    assert!(write_needs_admin(&v(r#"{ "nativeRegPath": "HKEY_LOCAL_MACHINE\\X" }"#)));
    assert!(write_needs_admin(&v(r#"{ "regPath": "HKCR\\X" }"#)));
    assert!(write_needs_admin(&v(r#"{ "blockedBy": "machine" }"#)));
    assert!(!write_needs_admin(&v(
        r#"{ "regPath": "HKEY_CLASSES_ROOT\\merge", "nativeRegPath": "HKEY_CURRENT_USER\\Software\\Classes\\x" }"#
    )));
    assert!(!write_needs_admin(&v(r#"{ "nativeRegPath": "HKCU\\X" }"#)));
}

#[test]
fn file_sources_bypass_reg_delete() {
    assert!(is_file_source(&v(r#"{ "source": "filesystem" }"#)));
    assert!(is_file_source(&v(r#"{ "source": "winx" }"#)));
    assert!(!is_file_source(&v(r#"{ "source": "registry" }"#)));
}

#[test]
fn restore_requires_elevation_both_ways() {
    let deny = restore_admin_gate(false).expect("非提权态必须被闸门拦下");
    assert!(matches!(deny.get("success"), Some(Json::Bool(false))));
    assert!(matches!(deny.get("needAdmin"), Some(Json::Bool(true))));
    assert!(restore_admin_gate(true).is_none());
}

#[test]
fn canon_regkey_aliases() {
    assert_eq!(canon_reg_key("Registry::HKEY_CURRENT_USER\\Software\\"), "hkcu\\software");
    assert_eq!(canon_reg_key("HKEY_CLASSES_ROOT\\*"), "hkcr\\*");
    assert_eq!(canon_reg_key("HKEY_LOCAL_MACHINE\\X"), "hklm\\x");
}

#[test]
fn snapshot_validation_takes_snapshot_copy() {
    let snap = snapshot_by_id(&vec![v(r#"{ "id": "a", "regPath": "HKCU\\X" }"#)]);
    assert!(validate_snapshot_items(&vec![v(r#"{ "id": "x" }"#)], &snap).is_none());
    let many: Vec<Json> = (0..501).map(|_| v(r#"{ "id": "a" }"#)).collect();
    assert!(validate_snapshot_items(&many, &snap).is_none());
    let ok = validate_snapshot_items(
        &vec![v(r#"{ "id": "a", "regPath": "HKCU\\EVIL" }"#)],
        &snap,
    )
    .unwrap();
    assert_eq!(ok[0].text("regPath"), Some("HKCU\\X"));
}

const RESTORE: &str = r"
$allowed = @('HKLM\SOFTWARE\Classes\', 'HKCU\SOFTWARE\Classes\')
foreach ($f in Get-ChildItem $dir -Filter 'registry_*.reg') {
    if ($manifest.registryFiles -notcontains $f.Name) { continue }
    if (-not (Test-RegKeyAllowedForRestore $f $allowed)) { continue }
    reg import $f.FullName
}
";

#[test]
fn restore_script_keeps_trust_gates() {
    let s = RESTORE;
    assert!(check_restore_script(s).is_ok());
    for (part, lost) in [
        ("manifest.registryFiles", "还原方向丢了 manifest 登记校验，退回自选目录内任意 .reg"),
        ("Test-RegKeyAllowedForRestore", "还原方向丢了键路径白名单闸门"),
        ("-Filter 'registry_*.reg'", "还原范围从本工具生成的件放宽到全部 .reg"),
        (
            r"@('HKLM\SOFTWARE\Classes\', 'HKCU\SOFTWARE\Classes\')",
            "键路径白名单前缀被改动",
        ),
    ] {
        assert!(s.contains(part));
        assert_eq!(check_restore_script(&s.replace(part, "")), Err(lost.to_string()));
    }
    assert!(!s.contains("Remove-Item"));
    assert_eq!(
        check_restore_script(&format!("{s}Remove-Item $dir")),
        Err("恢复脚本出现删除".to_string())
    );
}
