use serve_dir::size::pretty_size;

#[test]
fn size_zero_bytes() {
    assert_eq!(pretty_size(0), "0 B");
}

#[test]
fn size_below_one_thousand() {
    assert_eq!(pretty_size(999), "999 B");
}

#[test]
fn size_one_thousand_is_one_kilobyte() {
    assert_eq!(pretty_size(1000), "1.0 kB");
}

#[test]
fn size_one_and_a_half_megabytes() {
    assert_eq!(pretty_size(1_500_000), "1.5 MB");
}

#[test]
fn size_rounds_to_one_decimal() {
    assert_eq!(pretty_size(1234), "1.2 kB");
    assert_eq!(pretty_size(1250), "1.3 kB");
    assert_eq!(pretty_size(12_345_678), "12.3 MB");
}

#[test]
fn size_keeps_prefix_chosen_before_rounding() {
    assert_eq!(pretty_size(999_999), "1000.0 kB");
}

#[test]
fn size_largest_count() {
    assert_eq!(pretty_size(u64::MAX), "18.4 EB");
    assert_eq!(pretty_size(1_000_000_000_000), "1.0 TB");
}
