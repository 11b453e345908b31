use media_catalog::size::format_size;

#[test]
fn format_size_zero() {
    assert_eq!(format_size(&0), "0.0 B");
}

#[test]
fn format_size_kilobytes() {
    assert_eq!(format_size(&1536), "1.5 KB");
}

#[test]
fn format_size_megabyte() {
    assert_eq!(format_size(&1048576), "1.0 MB");
}

#[test]
fn format_size_gigabyte() {
    assert_eq!(format_size(&1073741824), "1.0 GB");
}

#[test]
fn format_size_just_below_a_kilobyte() {
    assert_eq!(format_size(&1023), "1023.0 B");
}

#[test]
fn format_size_tie_rounds_to_even() {
    // 1280 bytes is exactly 1.25 KB
    assert_eq!(format_size(&1280), "1.2 KB");
    // 1792 bytes is exactly 1.75 KB
    assert_eq!(format_size(&1792), "1.8 KB");
}

#[test]
fn format_size_beyond_gigabytes_stays_in_gigabytes() {
    assert_eq!(format_size(&(5 * 1024 * 1024 * 1024 * 1024)), "5120.0 GB");
}

#[test]
fn format_size_largest() {
    assert_eq!(format_size(&u64::MAX), "17179869184.0 GB");
}
