use std::io::{Cursor, Write};

use release_assistant::archive::Archive;
use release_assistant::package::{
    inspect_archive, inspect_package, package_info, unwrap_archive, unwrap_bundle, InspectError,
};
use release_assistant::manifest::extract_fields;
use zip::write::SimpleFileOptions;
use zip::ZipWriter;

fn zip_of(entries: &[(&str, &[u8])]) -> Vec<u8> {
    let mut w = ZipWriter::new(Cursor::new(Vec::new()));
    for (name, data) in entries {
        w.start_file(*name, SimpleFileOptions::default()).unwrap();
        w.write_all(data).unwrap();
    }
    w.finish().unwrap().into_inner()
}

#[test]
fn bytes_that_are_no_archive_fail_to_open() {
    let r = inspect_package(b"definitely not a zip".to_vec());
    assert!(matches!(r, Err(InspectError::ArchiveError)));
}

#[test]
fn package_without_manifest_reports_missing_entry() {
    let bytes = zip_of(&[("classes.dex", b"dex"), ("res/mipmap-hdpi/ic_launcher.png", b"png")]);
    match inspect_package(bytes) {
        Err(InspectError::EntryNotFound(name)) => assert_eq!(name, "AndroidManifest.xml"),
        other => panic!("unexpected result: {:?}", other),
    }
}

#[test]
fn undecodable_manifest_is_a_decode_error() {
    let bytes = zip_of(&[("AndroidManifest.xml", b"\x00\x01garbage")]);
    assert!(matches!(inspect_package(bytes), Err(InspectError::ManifestDecodeError)));
}

#[test]
fn record_carries_size_text_and_icon() {
    let info = package_info(extract_fields(&Vec::new()), 2048, Some("data:image/png;base64,".to_string()));
    assert_eq!(info.file_size, 2048);
    assert_eq!(info.file_size_readable, "2.00 KB");
    assert_eq!(info.icon_base64, Some("data:image/png;base64,".to_string()));
    assert_eq!(info.min_sdk_version, "unspecified");
}

#[test]
fn bundle_yields_inner_package_bytes() {
    let bytes = zip_of(&[
        ("info.json", b"{}"),
        ("split_config.base.apk", b"inner package"),
        ("other.apk", b"other"),
    ]);
    let (name, data) = unwrap_bundle(bytes).unwrap();
    assert_eq!(name, "split_config.base.apk");
    assert_eq!(data, b"inner package".to_vec());
}

#[test]
fn bundle_without_package_is_empty() {
    let bytes = zip_of(&[("info.json", b"{}"), ("icon.png", b"png")]);
    match unwrap_bundle(bytes) {
        Err(InspectError::ContainerEmpty(shown)) => {
            assert_eq!(shown, vec!["info.json".to_string(), "icon.png".to_string()])
        }
        other => panic!("unexpected result: {:?}", other),
    }
}

#[test]
fn bundle_that_is_no_archive_fails_to_open() {
    assert!(matches!(unwrap_bundle(vec![1, 2, 3]), Err(InspectError::ArchiveError)));
}

#[test]
fn open_bundle_falls_back_to_first_apk() {
    let bytes = zip_of(&[("icon.png", b"png"), ("Game.APK", b"game"), ("extra.apk", b"extra")]);
    let mut archive = Archive::open(bytes).unwrap();
    let (name, data) = unwrap_archive(&mut archive).unwrap();
    assert_eq!(name, "Game.APK");
    assert_eq!(data, b"game".to_vec());
}

#[test]
fn open_package_without_manifest() {
    let bytes = zip_of(&[("res/mipmap-hdpi/ic_launcher.png", b"png")]);
    let mut archive = Archive::open(bytes).unwrap();
    match inspect_archive(&mut archive, 10) {
        Err(InspectError::EntryNotFound(name)) => assert_eq!(name, "AndroidManifest.xml"),
        other => panic!("unexpected result: {:?}", other),
    }
}

#[test]
fn archive_lists_and_reads_entries() {
    let bytes = zip_of(&[("a.txt", b"alpha"), ("dir/b.txt", b"beta")]);
    let mut archive = Archive::open(bytes).unwrap();
    assert_eq!(archive.entry_names(), vec!["a.txt".to_string(), "dir/b.txt".to_string()]);
    assert_eq!(archive.read_entry("dir/b.txt").unwrap(), b"beta".to_vec());
    assert!(archive.read_entry("missing").is_err());
}
