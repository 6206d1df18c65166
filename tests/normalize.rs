use release_assistant::normalize::clean_attr_value;

#[test]
fn raw_value_becomes_decimal() {
    assert_eq!(clean_attr_value("(type 0x10) 0x1f"), "31");
}

#[test]
fn plain_decimal_is_unchanged() {
    assert_eq!(clean_attr_value("31"), "31");
    assert_eq!(clean_attr_value("4294967295"), "4294967295");
}

#[test]
fn normalising_twice_changes_nothing_more() {
    for v in ["(type 0x10) 0x1f", "(type 0x10) 0xzz", "1.2.3", "", "(type 0x3) 0x12927c70"] {
        let once = clean_attr_value(v);
        assert_eq!(clean_attr_value(&once), once);
    }
}

#[test]
fn value_without_type_marker_is_kept() {
    assert_eq!(clean_attr_value("0x1f"), "0x1f");
    assert_eq!(clean_attr_value("1.0.3"), "1.0.3");
}

#[test]
fn unreadable_number_is_kept() {
    assert_eq!(clean_attr_value("(type 0x10) 0xzz"), "(type 0x10) 0xzz");
    assert_eq!(clean_attr_value("(type 0x10) 0x"), "(type 0x10) 0x");
    assert_eq!(clean_attr_value("(type 0x10) 0x-1"), "(type 0x10) 0x-1");
}

#[test]
fn number_over_32_bits_is_kept() {
    assert_eq!(clean_attr_value("(type 0x10) 0x100000000"), "(type 0x10) 0x100000000");
    assert_eq!(clean_attr_value("(type 0x10) 0xffffffff"), "4294967295");
}

#[test]
fn number_is_trimmed_and_may_carry_plus() {
    assert_eq!(clean_attr_value("(type 0x10) 0x 1F \n"), "31");
    assert_eq!(clean_attr_value("(type 0x10) 0x+1f"), "31");
    assert_eq!(clean_attr_value("(type 0x10) 0x12927c70"), "311590000");
}

#[test]
fn marker_number_itself_when_last() {
    assert_eq!(clean_attr_value("(type 0x10)"), "(type 0x10)");
    assert_eq!(clean_attr_value("(type 0x1c"), "28");
}
