use std::io::{Cursor, Write};

use base64::engine::general_purpose::STANDARD;
use base64::Engine;
use release_assistant::archive::Archive;
use release_assistant::icon::{icon_search_order, scan_by_bucket, scan_by_name};
use release_assistant::package::{icon_data_uri, resolve_icon};
use zip::write::SimpleFileOptions;
use zip::ZipWriter;

fn zip_of(entries: &[(&str, &[u8])]) -> Vec<u8> {
    let mut w = ZipWriter::new(Cursor::new(Vec::new()));
    for (name, data) in entries {
        w.start_file(*name, SimpleFileOptions::default()).unwrap();
        w.write_all(data).unwrap();
    }
    w.finish().unwrap().into_inner()
}

fn names(v: &[&str]) -> Vec<String> {
    v.iter().map(|s| s.to_string()).collect()
}

#[test]
fn name_scan_keeps_launcher_pngs_shortest_first() {
    let all = names(&[
        "res/mipmap-xxxhdpi/ic_launcher.png",
        "res/drawable/background.png",
        "res/mipmap-mdpi/ic_launcher.png",
        "res/mipmap-mdpi/ic_launcher.webp",
        "assets/IC_LAUNCHER_big.PNG",
        "AndroidManifest.xml",
    ]);
    assert_eq!(
        scan_by_name(&all),
        names(&[
            "assets/IC_LAUNCHER_big.PNG",
            "res/mipmap-mdpi/ic_launcher.png",
            "res/mipmap-xxxhdpi/ic_launcher.png",
        ])
    );
}

#[test]
fn name_scan_keeps_listing_order_on_equal_length() {
    let all = names(&["b/ic_launcher.png", "a/ic_launcher.png", "res\\x\\ic_launcher_a.png"]);
    assert_eq!(
        scan_by_name(&all),
        names(&["b/ic_launcher.png", "a/ic_launcher.png", "res\\x\\ic_launcher_a.png"])
    );
}

#[test]
fn name_scan_uses_final_segment_only() {
    let all = names(&["ic_launcher/foo.png", "res\\ic_launcher.png", "x/my_ic_launcher.png"]);
    assert_eq!(scan_by_name(&all), names(&["res\\ic_launcher.png"]));
}

#[test]
fn bucket_scan_prefers_plain_then_round_then_others() {
    let all = names(&[
        "res/mipmap-hdpi/ic_launcher_foreground.png",
        "res/mipmap-hdpi/ic_launcher_round.png",
        "res/mipmap-hdpi/ic_launcher.png",
        "res/mipmap-hdpi/ic_launcher_background.png",
        "res/mipmap-xhdpi/ic_launcher.png",
    ]);
    assert_eq!(
        scan_by_bucket(&all, "mipmap-hdpi"),
        names(&[
            "res/mipmap-hdpi/ic_launcher.png",
            "res/mipmap-hdpi/ic_launcher_round.png",
            "res/mipmap-hdpi/ic_launcher_background.png",
            "res/mipmap-hdpi/ic_launcher_foreground.png",
        ])
    );
}

#[test]
fn bucket_must_be_a_whole_segment() {
    let all = names(&[
        "res/mipmap-xxxhdpi-v4/ic_launcher.png",
        "mipmap-xxxhdpi/ic_launcher.png",
        "res\\mipmap-xxxhdpi\\ic_launcher.png",
    ]);
    assert_eq!(
        scan_by_bucket(&all, "mipmap-xxxhdpi"),
        names(&["mipmap-xxxhdpi/ic_launcher.png", "res\\mipmap-xxxhdpi\\ic_launcher.png"])
    );
}

#[test]
fn bucket_phase_puts_xxxhdpi_before_mdpi() {
    let all = names(&["res/mipmap-mdpi/ic_launcher.png", "res/mipmap-xxxhdpi/ic_launcher.png"]);
    let order = icon_search_order(&all);
    assert_eq!(
        order,
        names(&[
            "res/mipmap-mdpi/ic_launcher.png",
            "res/mipmap-xxxhdpi/ic_launcher.png",
            "res/mipmap-xxxhdpi/ic_launcher.png",
            "res/mipmap-mdpi/ic_launcher.png",
        ])
    );
    assert_eq!(scan_by_bucket(&all, "mipmap-xxxhdpi"), names(&["res/mipmap-xxxhdpi/ic_launcher.png"]));
}

#[test]
fn icon_uri_wraps_base64() {
    assert_eq!(icon_data_uri(&vec![1, 2, 3]), "data:image/png;base64,AQID");
    assert_eq!(icon_data_uri(&Vec::new()), "data:image/png;base64,");
}

#[test]
fn flat_custom_launcher_is_found() {
    let bytes = zip_of(&[
        ("AndroidManifest.xml", b"x"),
        ("assets/ic_launcher_custom.png", b"custom-icon"),
        ("assets/logo.png", b"logo"),
    ]);
    let mut archive = Archive::open(bytes).unwrap();
    let icon = resolve_icon(&mut archive);
    let expected = format!("data:image/png;base64,{}", STANDARD.encode(b"custom-icon"));
    assert_eq!(icon, Some(expected));
}

#[test]
fn shorter_launcher_path_wins_the_first_phase() {
    let bytes = zip_of(&[
        ("res/mipmap-xxxhdpi/ic_launcher.png", b"high"),
        ("res/mipmap-mdpi/ic_launcher.png", b"low"),
    ]);
    let mut archive = Archive::open(bytes).unwrap();
    let expected = format!("data:image/png;base64,{}", STANDARD.encode(b"low"));
    assert_eq!(resolve_icon(&mut archive), Some(expected));
}

#[test]
fn no_launcher_means_no_icon() {
    let bytes = zip_of(&[("AndroidManifest.xml", b"x"), ("res/drawable/logo.png", b"logo")]);
    let mut archive = Archive::open(bytes).unwrap();
    assert_eq!(resolve_icon(&mut archive), None);
}
