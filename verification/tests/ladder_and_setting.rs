//! The size-class ladder and the retention setting.
use cuda_device::{bucket_index, capacity_from_setting, AllocCache, DEFAULT_CAPACITY_BYTES};

const MIB: usize = 1024 * 1024;

#[test]
fn ladder_has_exact_classes() {
    assert_eq!(bucket_index(0), 0);
    assert_eq!(bucket_index(511), 0);
    assert_eq!(bucket_index(512), 1);
    assert_eq!(bucket_index(639), 1);
    assert_eq!(bucket_index(640), 2);
    assert_eq!(bucket_index(767), 2);
    assert_eq!(bucket_index(768), 3);
    assert_eq!(bucket_index(896), 4);
    assert_eq!(bucket_index(1023), 4);
    assert_eq!(bucket_index(1024), 5);
    assert_eq!(bucket_index(1 << 20), 45);
    assert_eq!(bucket_index(usize::MAX), 220);
}

#[test]
fn ladder_is_monotonic_over_a_dense_range() {
    let mut last = 0;
    for bytes in 0..20_000usize {
        let b = bucket_index(bytes);
        assert!(b == last || b == last + 1, "jump at {bytes}");
        last = b;
    }
}

#[test]
fn ladder_octaves_have_four_even_classes() {
    for k in 9..40u32 {
        let base = 1usize << k;
        let width = base / 4;
        for q in 0..4usize {
            let class = 1 + (k as usize - 9) * 4 + q;
            assert_eq!(bucket_index(base + q * width), class);
            assert_eq!(bucket_index(base + (q + 1) * width - 1), class);
        }
    }
}

#[test]
fn setting_missing_leaves_the_default_cap() {
    assert_eq!(DEFAULT_CAPACITY_BYTES, 1024 * 1024 * 1024);
    assert_eq!(capacity_from_setting(None), DEFAULT_CAPACITY_BYTES);
    assert_eq!(AllocCache::default(None).stats().capacity_bytes, DEFAULT_CAPACITY_BYTES);
}

#[test]
fn setting_counts_mebibytes() {
    assert_eq!(capacity_from_setting(Some("1")), MIB);
    assert_eq!(capacity_from_setting(Some("512")), 512 * MIB);
    assert_eq!(capacity_from_setting(Some("0512")), 512 * MIB);
    assert_eq!(capacity_from_setting(Some("+3")), 3 * MIB);
    assert_eq!(AllocCache::default(Some("2")).stats().capacity_bytes, 2 * MIB);
}

#[test]
fn setting_is_trimmed() {
    assert_eq!(capacity_from_setting(Some(" 2 ")), 2 * MIB);
    assert_eq!(capacity_from_setting(Some("\t\n7\r\n")), 7 * MIB);
    assert_eq!(capacity_from_setting(Some("\u{3000}5\u{85}")), 5 * MIB);
}

#[test]
fn setting_zero_means_no_cap() {
    assert_eq!(capacity_from_setting(Some("0")), usize::MAX);
    assert_eq!(capacity_from_setting(Some(" 000 ")), usize::MAX);
}

#[test]
fn setting_saturates() {
    assert_eq!(capacity_from_setting(Some("18446744073709551615")), usize::MAX);
    assert_eq!(capacity_from_setting(Some("17592186044415")), 17592186044415 * MIB);
    assert_eq!(capacity_from_setting(Some("17592186044416")), usize::MAX);
}

#[test]
fn setting_that_is_no_number_leaves_the_default_cap() {
    for text in [
        "",
        "   ",
        "+",
        "-1",
        "-0",
        "1 2",
        "1_000",
        "0x10",
        "2.5",
        "many",
        "18446744073709551616",
        "\u{ff11}",
        "+ 1",
        "++1",
    ] {
        assert_eq!(capacity_from_setting(Some(text)), DEFAULT_CAPACITY_BYTES, "{text:?}");
    }
}

#[test]
fn setting_trims_exactly_the_white_space() {
    for c in '\0'..=char::MAX {
        let text = format!("{c}7{c}");
        let trimmed = capacity_from_setting(Some(text.as_str())) == 7 * MIB;
        assert_eq!(trimmed, c.is_whitespace(), "{c:?}");
        let white = matches!(
            c as u32,
            0x09..=0x0d
                | 0x20
                | 0x85
                | 0xa0
                | 0x1680
                | 0x2000..=0x200a
                | 0x2028
                | 0x2029
                | 0x202f
                | 0x205f
                | 0x3000
        );
        assert_eq!(white, c.is_whitespace(), "{c:?}");
    }
}
