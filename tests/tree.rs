use release_assistant::manifest::{fields_from_listing, Element};
use release_assistant::tree::declaration_order;

fn element(tag: &str, attrs: &[(&str, &str)]) -> Element {
    Element {
        tag: tag.to_string(),
        attrs: attrs.iter().map(|(k, v)| (k.to_string(), v.to_string())).collect(),
    }
}

#[test]
fn last_child_first_listing_is_put_back_in_order() {
    // root with children A (one child A1) and B, listed as root, B, A, A1
    assert_eq!(declaration_order(&vec![2, 0, 1, 0]), Some(vec![0, 2, 3, 1]));
}

#[test]
fn single_element_and_flat_children() {
    assert_eq!(declaration_order(&vec![0]), Some(vec![0]));
    assert_eq!(declaration_order(&vec![3, 0, 0, 0]), Some(vec![0, 3, 2, 1]));
}

#[test]
fn counts_that_describe_no_tree() {
    assert_eq!(declaration_order(&vec![]), None);
    assert_eq!(declaration_order(&vec![2, 0]), None);
    assert_eq!(declaration_order(&vec![0, 0]), None);
}

#[test]
fn listing_gives_components_in_declaration_order() {
    // manifest > [uses-permission CAMERA, uses-permission INTERNET, application > [activity Main, activity Settings]]
    let els = vec![
        element("manifest", &[("package", "com.example")]),
        element("application", &[]),
        element("activity", &[("android:name", "Settings")]),
        element("activity", &[("android:name", "Main")]),
        element("uses-permission", &[("android:name", "INTERNET")]),
        element("uses-permission", &[("android:name", "CAMERA")]),
    ];
    let counts = vec![3, 2, 0, 0, 0, 0];
    let f = fields_from_listing(&els, &counts);
    assert_eq!(f.permissions, vec!["CAMERA".to_string(), "INTERNET".to_string()]);
    assert_eq!(f.activities, vec!["Main".to_string(), "Settings".to_string()]);
    assert_eq!(f.package_name, "com.example");
}

#[test]
fn inconsistent_counts_keep_listing_order() {
    let els = vec![
        element("uses-permission", &[("android:name", "B")]),
        element("uses-permission", &[("android:name", "A")]),
    ];
    let f = fields_from_listing(&els, &vec![5, 0]);
    assert_eq!(f.permissions, vec!["B".to_string(), "A".to_string()]);
}
