use trim_finder::commands::appearance::{
    bg_ext_ok, effective_of, env_payload, known_material, parent, path_key, should_swap_to_mica,
    Surroundings,
};
use trim_finder::commands::cleanup_execute::path_resolve;
use trim_finder::json::Json;
use trim_finder::paths::path_join;

#[test]
fn effective_of_none_when_disabled() {
    assert_eq!(effective_of("acrylic", true), "acrylic");
    assert_eq!(effective_of("acrylic", false), "none");
    assert_eq!(effective_of("none", true), "none");
}

#[test]
fn battery_swaps_only_acrylic_and_only_when_enabled() {
    assert!(should_swap_to_mica("acrylic", true, true));
    assert!(should_swap_to_mica("thin-acrylic", true, true));
    assert!(!should_swap_to_mica("acrylic", false, true));
    assert!(!should_swap_to_mica("mica", true, true));
    assert!(!should_swap_to_mica("mica-alt", true, true));
    assert!(!should_swap_to_mica("acrylic", true, false));
}

#[test]
fn unknown_materials_are_refused() {
    assert!(known_material("thin-acrylic"));
    assert!(!known_material("Mica"));
    assert!(!known_material("blur-behind"));
    assert!(!known_material(""));
}

#[test]
fn only_listed_image_extensions_count() {
    assert!(bg_ext_ok("bg_1700.png"));
    assert!(bg_ext_ok("a.JPEG"));
    assert!(bg_ext_ok("a.webp"));
    assert!(!bg_ext_ok("a.exe"));
    assert!(!bg_ext_ok("noext"));
    assert!(!bg_ext_ok("a.png.txt"));
}

#[test]
fn only_direct_children_of_the_directory_are_deleted() {
    let dir = r"C:\Users\x\AppData\Roaming\com.xiaoxu.trim\backgrounds";
    let key = |p: &str| path_key(&path_resolve(p, None));
    let above = |p: &str| parent(p).map(|d| key(&d));
    let inside = path_join(dir, "bg_1.png");
    assert_eq!(above(&inside), Some(key(dir)));
    let escape = path_join(dir, r"..\appearance.json");
    assert_ne!(above(&escape), Some(key(dir)));
    let sub = path_join(&path_join(dir, "nested"), "x.png");
    assert_ne!(above(&sub), Some(key(dir)));
    let upper = dir.to_uppercase();
    let alt = path_join(&upper, "bg_1.png");
    assert_eq!(above(&alt), Some(key(dir)));
}

#[test]
fn env_payload_has_its_fields() {
    let v = env_payload(&Surroundings { on_battery: false, transparency_on: true, swapped: false });
    assert!(v.get("onBattery").is_some());
    assert!(v.get("transparencyOff").is_some());
    assert!(matches!(v.get("transparencyOff"), Some(Json::Bool(false))));
}
