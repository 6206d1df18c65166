use std::io::{Cursor, Write};

use release_assistant::axml::decodes_safely;
use release_assistant::package::{inspect_package, InspectError};
use zip::write::SimpleFileOptions;
use zip::ZipWriter;

fn zip_of(entries: &[(&str, &[u8])]) -> Vec<u8> {
    let mut w = ZipWriter::new(Cursor::new(Vec::new()));
    for (name, data) in entries {
        w.start_file(*name, SimpleFileOptions::default()).unwrap();
        w.write_all(data).unwrap();
    }
    w.finish().unwrap().into_inner()
}

fn u16le(v: &mut Vec<u8>, x: u16) {
    v.extend_from_slice(&x.to_le_bytes());
}

fn u32le(v: &mut Vec<u8>, x: u32) {
    v.extend_from_slice(&x.to_le_bytes());
}

/// A binary manifest `<manifest package="com.x"/>` with a UTF-16 string pool.
fn tiny_manifest() -> Vec<u8> {
    let strings = ["manifest", "package", "com.x"];
    let mut data = Vec::new();
    let mut offsets = Vec::new();
    for s in strings {
        offsets.push(data.len() as u32);
        u16le(&mut data, s.len() as u16);
        for c in s.encode_utf16() {
            u16le(&mut data, c);
        }
        u16le(&mut data, 0);
    }
    let mut pool = Vec::new();
    u16le(&mut pool, 0x0001);
    u16le(&mut pool, 28);
    u32le(&mut pool, (28 + 4 * strings.len() + data.len()) as u32);
    u32le(&mut pool, strings.len() as u32);
    u32le(&mut pool, 0);
    u32le(&mut pool, 0);
    u32le(&mut pool, (28 + 4 * strings.len()) as u32);
    u32le(&mut pool, 0);
    for o in offsets {
        u32le(&mut pool, o);
    }
    pool.extend_from_slice(&data);

    let mut start = Vec::new();
    u16le(&mut start, 0x0102);
    u16le(&mut start, 16);
    u32le(&mut start, 56);
    u32le(&mut start, 1);
    u32le(&mut start, 0xffff_ffff);
    u32le(&mut start, 0xffff_ffff);
    u32le(&mut start, 0);
    u16le(&mut start, 20);
    u16le(&mut start, 20);
    u16le(&mut start, 1);
    u16le(&mut start, 0);
    u16le(&mut start, 0);
    u16le(&mut start, 0);
    u32le(&mut start, 0xffff_ffff);
    u32le(&mut start, 1);
    u32le(&mut start, 2);
    u16le(&mut start, 8);
    start.push(0);
    start.push(0x03);
    u32le(&mut start, 2);

    let mut end = Vec::new();
    u16le(&mut end, 0x0103);
    u16le(&mut end, 16);
    u32le(&mut end, 24);
    u32le(&mut end, 1);
    u32le(&mut end, 0xffff_ffff);
    u32le(&mut end, 0xffff_ffff);
    u32le(&mut end, 0);

    let mut doc = Vec::new();
    u16le(&mut doc, 0x0003);
    u16le(&mut doc, 8);
    u32le(&mut doc, (8 + pool.len() + start.len() + end.len()) as u32);
    doc.extend_from_slice(&pool);
    doc.extend_from_slice(&start);
    doc.extend_from_slice(&end);
    doc
}

#[test]
fn small_binary_manifest_is_read() {
    let m = tiny_manifest();
    assert!(decodes_safely(&m));
    let bytes = zip_of(&[("AndroidManifest.xml", &m)]);
    let info = inspect_package(bytes).unwrap();
    assert_eq!(info.package_name, "com.x");
    assert_eq!(info.min_sdk_version, "unspecified");
    assert_eq!(info.icon_base64, None);
}

#[test]
fn manifest_with_icon_is_read_with_icon() {
    let m = tiny_manifest();
    let bytes = zip_of(&[("AndroidManifest.xml", &m), ("res/mipmap-hdpi/ic_launcher.png", b"P")]);
    let info = inspect_package(bytes).unwrap();
    assert_eq!(info.icon_base64, Some("data:image/png;base64,UA==".to_string()));
}

#[test]
fn text_manifest_would_make_the_decoder_panic() {
    let text = b"<?xml version=\"1.0\"?><manifest/>".to_vec();
    assert!(!decodes_safely(&text));
    assert!(!decodes_safely(&vec![0xff, 0xff]));
    let bytes = zip_of(&[("AndroidManifest.xml", &text)]);
    assert!(matches!(inspect_package(bytes), Err(InspectError::ManifestDecodeError)));
}

#[test]
fn nonzero_reserved_byte_is_turned_down() {
    let mut m = tiny_manifest();
    let at = m.len() - 24 - 6;
    assert_eq!(m[at], 0);
    m[at] = 1;
    assert!(!decodes_safely(&m));
    let bytes = zip_of(&[("AndroidManifest.xml", &m)]);
    assert!(matches!(inspect_package(bytes), Err(InspectError::ManifestDecodeError)));
}

#[test]
fn element_after_closed_root_is_turned_down() {
    let m = tiny_manifest();
    let start_len = 56;
    let end_len = 24;
    let n = m.len();
    let mut twice = m.clone();
    twice.extend_from_slice(&m[n - end_len - start_len..n]);
    let mut other = twice.clone();
    // second start element names "package" (string 1), which is pushed, not the root
    let second = n + 20;
    other[second] = 1;
    assert!(!decodes_safely(&other));
}

#[test]
fn bad_header_sizes_are_turned_down() {
    let mut m = tiny_manifest();
    m[2] = 4;
    assert!(!decodes_safely(&m));
}

#[test]
fn empty_and_short_input_stop_safely() {
    assert!(decodes_safely(&Vec::new()));
    assert!(decodes_safely(&vec![0x03]));
}
