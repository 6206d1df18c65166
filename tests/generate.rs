use release_assistant::generate::{generate_passwords, generate_uuids, style_uuid, PasswordOptions};

fn options(length: u32, upper: bool, lower: bool, numbers: bool, symbols: bool, exclude: bool) -> PasswordOptions {
    PasswordOptions {
        length,
        uppercase: upper,
        lowercase: lower,
        numbers,
        symbols,
        exclude_ambiguous: exclude,
    }
}

#[test]
fn passwords_have_length_and_charset() {
    let ps = generate_passwords(options(16, true, true, true, false, false), 5).unwrap();
    assert_eq!(ps.len(), 5);
    for p in &ps {
        assert_eq!(p.chars().count(), 16);
        assert!(p.chars().all(|c| c.is_ascii_alphanumeric()));
    }
}

#[test]
fn short_length_keeps_one_of_each_class() {
    let ps = generate_passwords(options(2, true, true, true, true, false), 3).unwrap();
    for p in &ps {
        assert_eq!(p.chars().count(), 4);
    }
}

#[test]
fn ambiguous_characters_can_be_left_out() {
    let ps = generate_passwords(options(200, true, true, true, false, true), 4).unwrap();
    for p in &ps {
        assert!(!p.chars().any(|c| "0OIl1".contains(c)));
    }
}

#[test]
fn numbers_only_without_ambiguous() {
    let ps = generate_passwords(options(50, false, false, true, false, true), 2).unwrap();
    for p in &ps {
        assert!(p.chars().all(|c| "23456789".contains(c)));
    }
}

#[test]
fn no_class_is_an_error() {
    assert_eq!(
        generate_passwords(options(8, false, false, false, false, false), 1).unwrap_err(),
        "请至少选择一种字符类型"
    );
    assert!(generate_passwords(options(8, false, false, false, false, true), 0).is_err());
}

#[test]
fn zero_passwords_asked() {
    assert_eq!(generate_passwords(options(8, true, false, false, false, false), 0).unwrap().len(), 0);
}

#[test]
fn uuid_styles() {
    let t = "67e55044-10b1-426f-9247-bb680e5fe0c8";
    assert_eq!(style_uuid(t, false, true), t);
    assert_eq!(style_uuid(t, false, false), "67e5504410b1426f9247bb680e5fe0c8");
    assert_eq!(style_uuid(t, true, true), "67E55044-10B1-426F-9247-BB680E5FE0C8");
    assert_eq!(style_uuid(t, true, false), "67E5504410B1426F9247BB680E5FE0C8");
}

#[test]
fn uuids_are_generated_in_the_asked_form() {
    let v = generate_uuids(3, "v4".to_string(), true, false).unwrap();
    assert_eq!(v.len(), 3);
    for u in &v {
        assert_eq!(u.len(), 32);
        assert!(u.chars().all(|c| c.is_ascii_digit() || ('A'..='F').contains(&c)));
    }
    let w = generate_uuids(2, "v7".to_string(), false, true).unwrap();
    for u in &w {
        assert_eq!(u.len(), 36);
        assert_eq!(u.as_bytes()[14], b'4');
        assert!(b"89ab".contains(&u.as_bytes()[19]));
        assert_eq!(u.matches('-').count(), 4);
    }
}

#[test]
fn unknown_uuid_version_is_an_error() {
    assert_eq!(generate_uuids(1, "v1".to_string(), false, true).unwrap_err(), "不支持的 UUID 版本: v1");
    assert_eq!(generate_uuids(0, "v1".to_string(), false, true).unwrap().len(), 0);
}
