use generalization::drcov::{drcov_filename, drcov_filename_for, format_hex16};
use generalization::stats::TimedStats;

#[test]
fn timed_stats_starts_empty() {
    let s = TimedStats::new();
    assert!(s.series.is_empty());
    assert_eq!(s.max, u64::MIN);
    assert_eq!(s.min, u64::MAX);
}

#[test]
fn timed_stats_records_changes_only() {
    let mut s = TimedStats::new();
    s.add(10, 5);
    s.add(20, 5);
    s.add(30, 7);
    s.add(40, 2);
    assert_eq!(s.series.len(), 3);
    assert_eq!(s.series[0].time, 10);
    assert_eq!(s.series[0].item, 5);
    assert_eq!(s.series[1].item, 7);
    assert_eq!(s.series[2].item, 2);
    assert_eq!(s.max, 7);
    assert_eq!(s.min, 2);
}

#[test]
fn timed_stats_add_now_dedups_too() {
    let mut s = TimedStats::new();
    s.add_now(4);
    s.add_now(4);
    s.add_now(9);
    assert_eq!(s.series.len(), 2);
    assert_eq!(s.series[0].item, 4);
    assert_eq!(s.series[1].item, 9);
    assert_eq!(s.max, 9);
    assert_eq!(s.min, 4);
}

#[test]
fn hex_formatting_is_zero_padded_lowercase() {
    assert_eq!(format_hex16(0), b"0000000000000000".to_vec());
    assert_eq!(format_hex16(0xdeadbeef), b"00000000deadbeef".to_vec());
    assert_eq!(format_hex16(u64::MAX), b"ffffffffffffffff".to_vec());
    assert_eq!(format_hex16(0x0123456789abcdef), b"0123456789abcdef".to_vec());
}

#[test]
fn drcov_path_has_directory_digest_and_extension() {
    assert_eq!(
        drcov_filename(0xdeadbeef),
        b"./coverage/00000000deadbeef.drcov".to_vec()
    );
}

#[test]
fn drcov_path_for_input_is_deterministic_and_well_formed() {
    let a = drcov_filename_for(&b"some input".to_vec());
    let b = drcov_filename_for(&b"some input".to_vec());
    assert_eq!(a, b);
    assert_eq!(a.len(), 33);
    assert!(a.starts_with(b"./coverage/"));
    assert!(a.ends_with(b".drcov"));
    for &c in &a[11..27] {
        assert!(c.is_ascii_hexdigit() && !c.is_ascii_uppercase());
    }
    let other = drcov_filename_for(&b"another input".to_vec());
    assert_ne!(a, other);
}
