use release_assistant::manifest::{components, extract_fields, Element};

fn element(tag: &str, attrs: &[(&str, &str)]) -> Element {
    Element {
        tag: tag.to_string(),
        attrs: attrs.iter().map(|(k, v)| (k.to_string(), v.to_string())).collect(),
    }
}

#[test]
fn fields_come_from_manifest_and_uses_sdk() {
    let els = vec![
        element(
            "manifest",
            &[
                ("package", "com.example.app"),
                ("android:versionName", "1.2.3"),
                ("versionCode", "(type 0x10) 0x2a"),
                ("android:compileSdkVersion", "(type 0x10) 0x22"),
            ],
        ),
        element("uses-sdk", &[("android:minSdkVersion", "21"), ("targetSdkVersion", "0x22")]),
    ];
    let f = extract_fields(&els);
    assert_eq!(f.package_name, "com.example.app");
    assert_eq!(f.version_name, "1.2.3");
    assert_eq!(f.version_code, "42");
    assert_eq!(f.compile_sdk_version, "34");
    assert_eq!(f.min_sdk_version, "21");
    assert_eq!(f.target_sdk_version, "0x22");
}

#[test]
fn missing_uses_sdk_gives_placeholder() {
    let els = vec![element("manifest", &[("package", "com.example.app")])];
    let f = extract_fields(&els);
    assert_eq!(f.min_sdk_version, "unspecified");
    assert_eq!(f.target_sdk_version, "unspecified");
    assert_eq!(f.compile_sdk_version, "unspecified");
    assert_eq!(f.version_name, "unspecified");
    assert_eq!(f.version_code, "unspecified");
    assert_eq!(f.package_name, "com.example.app");
}

#[test]
fn empty_tree_gives_placeholders_and_no_components() {
    let f = extract_fields(&Vec::new());
    assert_eq!(f.package_name, "unspecified");
    assert_eq!(f.min_sdk_version, "unspecified");
    assert!(f.permissions.is_empty());
    assert!(f.activities.is_empty());
}

#[test]
fn namespaced_key_wins_over_bare_key() {
    let els = vec![element(
        "manifest",
        &[("versionName", "bare"), ("android:versionName", "namespaced")],
    )];
    assert_eq!(extract_fields(&els).version_name, "namespaced");
}

#[test]
fn compile_sdk_falls_back_to_codename() {
    let els = vec![element(
        "manifest",
        &[("android:compileSdkVersionCodename", "14"), ("compileSdkVersion", "")],
    )];
    assert_eq!(extract_fields(&els).compile_sdk_version, "14");
}

#[test]
fn only_first_manifest_and_uses_sdk_count() {
    let els = vec![
        element("uses-sdk", &[("minSdkVersion", "19")]),
        element("manifest", &[("package", "first")]),
        element("manifest", &[("package", "second")]),
        element("uses-sdk", &[("minSdkVersion", "30")]),
    ];
    let f = extract_fields(&els);
    assert_eq!(f.package_name, "first");
    assert_eq!(f.min_sdk_version, "19");
}

#[test]
fn components_in_element_order_with_duplicates() {
    let els = vec![
        element("manifest", &[("package", "p")]),
        element("uses-permission", &[("android:name", "android.permission.INTERNET")]),
        element("activity", &[("android:name", "com.example.Main")]),
        element("activity", &[("android:exported", "true")]),
        element("uses-permission", &[("android:name", "android.permission.CAMERA")]),
        element("uses-permission", &[("android:name", "android.permission.INTERNET")]),
        element("service", &[("android:name", "com.example.Sync")]),
        element("receiver", &[("android:name", "com.example.Boot")]),
        element("provider", &[("android:name", "com.example.Files")]),
    ];
    let f = extract_fields(&els);
    assert_eq!(
        f.permissions,
        vec![
            "android.permission.INTERNET".to_string(),
            "android.permission.CAMERA".to_string(),
            "android.permission.INTERNET".to_string(),
        ]
    );
    assert_eq!(f.activities, vec!["com.example.Main".to_string()]);
    assert_eq!(f.services, vec!["com.example.Sync".to_string()]);
    assert_eq!(f.receivers, vec!["com.example.Boot".to_string()]);
    assert_eq!(f.providers, vec!["com.example.Files".to_string()]);
    assert_eq!(components(&els, "meta-data"), Vec::<String>::new());
}
