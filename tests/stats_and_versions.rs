use std::cmp::Ordering;
use tui_game::stats::{format_duration, merge_stats, GameStats};
use tui_game::version::{
    compare_versions, is_version_newer, normalize_tag, parse_version_segments,
    select_version_script, VersionScript,
};

#[test]
fn format_duration_works() {
    assert_eq!(format_duration(1250), "00:20:50");
    assert_eq!(format_duration(3661), "01:01:01");
}

#[test]
fn format_duration_long_hours() {
    assert_eq!(format_duration(0), "00:00:00");
    assert_eq!(format_duration(360000), "100:00:00");
}

#[test]
fn normalize_tag_adds_prefix() {
    assert_eq!(normalize_tag("0.1.4"), "v0.1.4");
    assert_eq!(normalize_tag("v0.1.4"), "v0.1.4");
}

#[test]
fn normalize_tag_trims_and_defaults() {
    assert_eq!(normalize_tag("  V 1.2 "), "v1.2");
    assert_eq!(normalize_tag("   "), "v0.4.1");
}

#[test]
fn version_compare_is_semantic() {
    assert_eq!(compare_versions("v0.3.2", "v0.3.1"), Some(Ordering::Greater));
    assert_eq!(compare_versions("v0.3.1", "v0.3.2"), Some(Ordering::Less));
    assert_eq!(compare_versions("v0.3.2", "v0.3.2"), Some(Ordering::Equal));
    assert_eq!(compare_versions("v0.3.10", "v0.3.2"), Some(Ordering::Greater));

    assert!(is_version_newer("v1.0.0", "v0.9.9"));
    assert!(!is_version_newer("v0.9.9", "v1.0.0"));
    assert!(!is_version_newer("v1.0.0", "v1.0.0"));
}

#[test]
fn version_segments_reject_malformed() {
    assert_eq!(parse_version_segments("v1.2.3"), Some(vec![1, 2, 3]));
    assert_eq!(parse_version_segments("1..2"), None);
    assert_eq!(parse_version_segments("v"), None);
    assert_eq!(parse_version_segments("1.x"), None);
    assert_eq!(compare_versions("v1.0", "v1.0.0"), Some(Ordering::Equal));
    assert_eq!(compare_versions("garbage", "v1.0.0"), None);
}

#[test]
fn version_script_preference() {
    assert_eq!(select_version_script(false, false, false), None);
    assert_eq!(select_version_script(true, true, false), Some(VersionScript::Sh));
    assert_eq!(select_version_script(true, true, true), Some(VersionScript::Bat));
    assert_eq!(select_version_script(true, false, false), Some(VersionScript::Bat));
}

#[test]
fn record_stats_keeps_running_maxima() {
    let first = merge_stats(None, 5, 10);
    let second = merge_stats(Some(first), 3, 20);
    assert_eq!(second, GameStats { high_score: 5, max_duration_sec: 20 });
}

#[test]
fn record_stats_clamps_inputs() {
    let s = merge_stats(None, -7, -3);
    assert_eq!(s, GameStats { high_score: 0, max_duration_sec: 0 });
    let s = merge_stats(None, i64::MAX, 1);
    assert_eq!(s.high_score, u32::MAX);
}
