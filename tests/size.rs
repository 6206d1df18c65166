use release_assistant::size::format_file_size;

#[test]
fn sizes_below_a_kilobyte_in_bytes() {
    assert_eq!(format_file_size(0), "0 Bytes");
    assert_eq!(format_file_size(500), "500 Bytes");
    assert_eq!(format_file_size(1023), "1023 Bytes");
}

#[test]
fn kilobytes_with_two_decimals() {
    assert_eq!(format_file_size(1024), "1.00 KB");
    assert_eq!(format_file_size(1536), "1.50 KB");
    assert_eq!(format_file_size(1048575), "1024.00 KB");
}

#[test]
fn ties_round_to_even() {
    assert_eq!(format_file_size(1152), "1.12 KB");
    assert_eq!(format_file_size(1408), "1.38 KB");
}

#[test]
fn megabytes_and_gigabytes() {
    assert_eq!(format_file_size(1048576), "1.00 MB");
    assert_eq!(format_file_size(5 * 1048576 + 524288), "5.50 MB");
    assert_eq!(format_file_size(1073741824), "1.00 GB");
    assert_eq!(format_file_size(u64::MAX), "17179869184.00 GB");
}
