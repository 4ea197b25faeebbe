use imgdup::pic::{decimal_text, size_label, Pic};

fn pic(name: &str, hash: &str, size: u64) -> Pic {
    Pic { name: name.to_string(), hash: hash.to_string(), size }
}

#[test]
fn decimal_text_writes_digits() {
    assert_eq!(decimal_text(0), "0");
    assert_eq!(decimal_text(7), "7");
    assert_eq!(decimal_text(10), "10");
    assert_eq!(decimal_text(1234567890), "1234567890");
    assert_eq!(decimal_text(u64::MAX), "18446744073709551615");
}

#[test]
fn sizes_below_a_kilobyte_are_in_bytes() {
    assert_eq!(pic("a", "", 0).find_size(), "0b");
    assert_eq!(pic("a", "", 1).find_size(), "1b");
    assert_eq!(pic("a", "", 1023).find_size(), "1023b");
}

#[test]
fn sizes_are_divided_by_1024_per_unit_and_rounded_down() {
    assert_eq!(pic("a", "", 1024).find_size(), "1kb");
    assert_eq!(pic("a", "", 1535).find_size(), "1kb");
    assert_eq!(pic("a", "", 2047).find_size(), "1kb");
    assert_eq!(pic("a", "", 2048).find_size(), "2kb");
    assert_eq!(pic("a", "", 1024 * 1024 - 1).find_size(), "1023kb");
    assert_eq!(pic("a", "", 1024 * 1024).find_size(), "1mb");
    assert_eq!(pic("a", "", 5 * 1024 * 1024 + 17).find_size(), "5mb");
    assert_eq!(pic("a", "", 1024 * 1024 * 1024 - 1).find_size(), "1023mb");
    assert_eq!(pic("a", "", 1024 * 1024 * 1024).find_size(), "1gb");
    assert_eq!(pic("a", "", 1024u64 * 1024 * 1024 * 1024 - 1).find_size(), "1023gb");
}

#[test]
fn sizes_from_a_terabyte_on_are_in_bytes_again() {
    assert_eq!(pic("a", "", 1024u64 * 1024 * 1024 * 1024).find_size(), "1099511627776b");
    assert_eq!(pic("a", "", u64::MAX).find_size(), "18446744073709551615b");
}

#[test]
fn size_label_agrees_with_find_size() {
    for size in [0u64, 999, 1024, 123456, 987654321, 1 << 45] {
        assert_eq!(size_label(size), pic("a", "", size).find_size());
    }
}

#[test]
fn same_content_goes_by_fingerprint_alone() {
    let a = pic("a.png", "1100", 10);
    let b = pic("b.png", "1100", 20);
    let c = pic("a.png", "1101", 10);
    assert!(a.same_content(&b));
    assert!(b.same_content(&a));
    assert!(!a.same_content(&c));
}

#[test]
fn clone_copies_every_field() {
    let a = pic("a.png", "1100", 10);
    let b = a.clone();
    assert_eq!(b.name, "a.png");
    assert_eq!(b.hash, "1100");
    assert_eq!(b.size, 10);
}
