use torrent_scraper::record::File;
use torrent_scraper::scalar::{parse_data_size, parse_file, parse_time_offset};

const NOW: u64 = 1_700_000_000;

#[test]
fn zero_seconds_ago_is_now() {
    assert_eq!(parse_time_offset(NOW, "0 seconds ago"), Some(NOW));
}

#[test]
fn one_year_ago_is_365_days() {
    assert_eq!(parse_time_offset(NOW, "1 year ago"), Some(NOW - 365 * 86400));
}

#[test]
fn every_unit_has_its_factor() {
    assert_eq!(parse_time_offset(NOW, "7 seconds ago"), Some(NOW - 7));
    assert_eq!(parse_time_offset(NOW, "1 second ago"), Some(NOW - 1));
    assert_eq!(parse_time_offset(NOW, "3 minutes ago"), Some(NOW - 180));
    assert_eq!(parse_time_offset(NOW, "2 hours ago"), Some(NOW - 7200));
    assert_eq!(parse_time_offset(NOW, "1 day ago"), Some(NOW - 86400));
    assert_eq!(parse_time_offset(NOW, "2 weeks ago"), Some(NOW - 2 * 7 * 86400));
    assert_eq!(parse_time_offset(NOW, "5 months ago"), Some(NOW - 5 * 30 * 86400));
    assert_eq!(parse_time_offset(NOW, "3 years ago"), Some(NOW - 3 * 365 * 86400));
    assert_eq!(parse_time_offset(NOW, "1 decade ago"), Some(NOW - 3650 * 86400));
    assert_eq!(parse_time_offset(NOW, "2 decades ago"), Some(NOW - 2 * 3650 * 86400));
}

#[test]
fn malformed_times_are_invalid() {
    assert_eq!(parse_time_offset(NOW, ""), None);
    assert_eq!(parse_time_offset(NOW, "   "), None);
    assert_eq!(parse_time_offset(NOW, "ago"), None);
    assert_eq!(parse_time_offset(NOW, "5 ago"), None);
    assert_eq!(parse_time_offset(NOW, "5 fortnights ago"), None);
    assert_eq!(parse_time_offset(NOW, "five days ago"), None);
    assert_eq!(parse_time_offset(NOW, "5 days old"), None);
    assert_eq!(parse_time_offset(NOW, "5  days ago"), None);
    assert_eq!(parse_time_offset(NOW, "5 days ago now"), None);
    assert_eq!(parse_time_offset(NOW, "-5 days ago"), None);
    assert_eq!(parse_time_offset(NOW, "5.5 days ago"), None);
    assert_eq!(parse_time_offset(NOW, "5 Days ago"), None);
}

#[test]
fn time_text_is_trimmed() {
    assert_eq!(parse_time_offset(NOW, "  2 hours ago\n"), Some(NOW - 7200));
    assert_eq!(parse_time_offset(NOW, "\u{a0}2 hours ago\t"), Some(NOW - 7200));
}

#[test]
fn only_one_plural_s_is_taken_off() {
    assert_eq!(parse_time_offset(NOW, "2 hourss ago"), None);
    assert_eq!(parse_time_offset(NOW, "2 s ago"), None);
}

#[test]
fn a_count_may_carry_a_plus_sign() {
    assert_eq!(parse_time_offset(NOW, "+2 hours ago"), Some(NOW - 7200));
    assert_eq!(parse_time_offset(NOW, "+ hours ago"), None);
}

#[test]
fn a_time_before_instant_zero_is_invalid() {
    assert_eq!(parse_time_offset(100, "100 seconds ago"), Some(0));
    assert_eq!(parse_time_offset(100, "101 seconds ago"), None);
    assert_eq!(parse_time_offset(NOW, "99999999999999999999999999 seconds ago"), None);
    assert_eq!(parse_time_offset(u64::MAX, "18446744073709551615 seconds ago"), Some(0));
    assert_eq!(parse_time_offset(u64::MAX, "18446744073709551615 decades ago"), None);
}

#[test]
fn sizes_scale_by_1024() {
    assert_eq!(parse_data_size("1 KB"), Some(1024));
    assert_eq!(parse_data_size("1.5 MB"), Some(1572864));
    assert_eq!(parse_data_size("1,024 B"), Some(1024));
    assert_eq!(parse_data_size("1 PB"), None);
    assert_eq!(parse_data_size("87.8 MB"), Some(92064972));
    assert_eq!(parse_data_size("742.2 KB"), Some(760012));
    assert_eq!(parse_data_size("1.2 GB"), Some(1288490188));
    assert_eq!(parse_data_size("2 TB"), Some(2 * 1099511627776));
    assert_eq!(parse_data_size("0 B"), Some(0));
    assert_eq!(parse_data_size("12 Bs"), Some(12));
    assert_eq!(parse_data_size("3 KBs"), Some(3072));
}

#[test]
fn sizes_round_down() {
    assert_eq!(parse_data_size("0.5 B"), Some(0));
    assert_eq!(parse_data_size("1.9 B"), Some(1));
    assert_eq!(parse_data_size("0.0009765625 KB"), Some(1));
    assert_eq!(parse_data_size("0.00097656249999999999999999 KB"), Some(0));
    assert_eq!(parse_data_size("0.999999999999999999999999999 KB"), Some(1023));
}

#[test]
fn number_forms() {
    assert_eq!(parse_data_size(".5 KB"), Some(512));
    assert_eq!(parse_data_size("5. KB"), Some(5120));
    assert_eq!(parse_data_size("+5 KB"), Some(5120));
    assert_eq!(parse_data_size("1,234,567 B"), Some(1234567));
    assert_eq!(parse_data_size("1,5.2,5 KB"), Some(15616));
    assert_eq!(parse_data_size(". KB"), None);
    assert_eq!(parse_data_size("+ KB"), None);
    assert_eq!(parse_data_size(", KB"), None);
    assert_eq!(parse_data_size("1.2.3 KB"), None);
    assert_eq!(parse_data_size("-1 KB"), None);
    assert_eq!(parse_data_size("1e3 KB"), None);
    assert_eq!(parse_data_size("abc KB"), None);
    assert_eq!(parse_data_size("inf KB"), None);
    assert_eq!(parse_data_size("NaN KB"), None);
}

#[test]
fn malformed_sizes_are_invalid() {
    assert_eq!(parse_data_size(""), None);
    assert_eq!(parse_data_size("  "), None);
    assert_eq!(parse_data_size("12"), None);
    assert_eq!(parse_data_size("KB"), None);
    assert_eq!(parse_data_size("1  KB"), None);
    assert_eq!(parse_data_size("1 KB big"), None);
    assert_eq!(parse_data_size("1 kb"), None);
    assert_eq!(parse_data_size("1 s"), None);
    assert_eq!(parse_data_size("1 KBss"), None);
}

#[test]
fn size_text_is_trimmed() {
    assert_eq!(parse_data_size(" 1 KB "), Some(1024));
}

#[test]
fn sizes_beyond_the_range_saturate() {
    assert_eq!(parse_data_size("18446744073709551615 B"), Some(u64::MAX));
    assert_eq!(parse_data_size("18446744073709551616 B"), Some(u64::MAX));
    assert_eq!(parse_data_size("99999999999999999999999999 TB"), Some(u64::MAX));
    assert_eq!(parse_data_size("16777216 TB"), Some(u64::MAX));
    assert_eq!(parse_data_size("16777215 TB"), Some(16777215 * 1099511627776));
}

#[test]
fn a_file_entry_splits_at_the_last_bracket() {
    assert_eq!(
        parse_file("Movie (Part 1) (1.2 GB)"),
        Some(File { name: String::from("Movie (Part 1)"), size: 1288490188 })
    );
    assert_eq!(parse_file("Movie (Part 1) (1.2 GB)").map(|f| f.size), parse_data_size("1.2 GB"));
    assert_eq!(
        parse_file("File(2) Name (1.2 GB)"),
        Some(File { name: String::from("File(2) Name"), size: 1288490188 })
    );
    assert_eq!(
        parse_file("  a.txt(10 B)  "),
        Some(File { name: String::from("a.txt"), size: 10 })
    );
}

#[test]
fn broken_file_entries_are_invalid() {
    assert_eq!(parse_file("broken"), None);
    assert_eq!(parse_file(""), None);
    assert_eq!(parse_file("name 1.2 GB)"), None);
    assert_eq!(parse_file("name (1.2 GB"), None);
    assert_eq!(parse_file("name (big)"), None);
    assert_eq!(parse_file("name ()"), None);
    assert_eq!(parse_file("name (1 KB) tail"), None);
}

#[test]
fn a_file_entry_without_a_name_is_invalid() {
    assert_eq!(parse_file("(1.2 GB)"), None);
    assert_eq!(parse_file("   (1.2 GB)"), None);
}
