use release_assistant::bundle::{is_bundle_extension, select_inner_package};

fn names(v: &[&str]) -> Vec<String> {
    v.iter().map(|s| s.to_string()).collect()
}

#[test]
fn priority_name_beats_other_apk() {
    let all = names(&["info.json", "split_config.base.apk", "other.apk"]);
    assert_eq!(select_inner_package(&all).unwrap(), "split_config.base.apk");
}

#[test]
fn base_apk_is_first_in_priority() {
    let all = names(&["master.apk", "split_config.base.apk", "base.apk"]);
    assert_eq!(select_inner_package(&all).unwrap(), "base.apk");
}

#[test]
fn first_apk_in_listing_order_otherwise() {
    let all = names(&["icon.png", "config.arm64_v8a.APK", "com.example.apk"]);
    assert_eq!(select_inner_package(&all).unwrap(), "config.arm64_v8a.APK");
}

#[test]
fn priority_names_match_exactly() {
    let all = names(&["Base.apk", "apks/base.apk"]);
    assert_eq!(select_inner_package(&all).unwrap(), "Base.apk");
}

#[test]
fn no_package_reports_first_thirty_names() {
    let all: Vec<String> = (0..40).map(|i| format!("file{}.obb", i)).collect();
    let shown = select_inner_package(&all).unwrap_err();
    assert_eq!(shown.len(), 30);
    assert_eq!(shown[0], "file0.obb");
    assert_eq!(shown[29], "file29.obb");
    assert_eq!(select_inner_package(&Vec::new()).unwrap_err(), Vec::<String>::new());
}

#[test]
fn bundle_extension_ignores_case() {
    assert!(is_bundle_extension("xapk"));
    assert!(is_bundle_extension("XAPK"));
    assert!(is_bundle_extension("XaPk"));
    assert!(!is_bundle_extension("apk"));
    assert!(!is_bundle_extension("xapks"));
    assert!(!is_bundle_extension(""));
}

#[test]
fn kelvin_sign_counts_as_k() {
    let all = names(&["notes.txt", "a.ap\u{212A}"]);
    assert_eq!(select_inner_package(&all).unwrap(), "a.ap\u{212A}");
    assert!(is_bundle_extension("XAP\u{212A}"));
}
