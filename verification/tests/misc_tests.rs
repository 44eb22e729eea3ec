//! Tests for the remaining library pieces: errors, value objects, DSN
//! logic, size formatting helpers, tables, snapshots, and the animation.

use dragonfly::animation::DefragAnimation;
use dragonfly::cleaner::{expand_path, CleanTarget};
use dragonfly::domain::{AnalysisStrategy, ComponentHealth, FilePath, FileSize, HealthStatus};
use dragonfly::error::Error;
use dragonfly::sizeparse::parse_size;
use dragonfly::table::Table;
use dragonfly::timemachine::TimeMachineManager;
use dragonfly::tracking::{extract_dsn_from_config, mask_dsn, ErrorTrackingBackend};
use dragonfly::VERSION;

#[test]
fn test_error_display() {
    let err = Error::InvalidInput("test".to_string());
    assert!(err.message().contains("Invalid input"));
}

#[test]
fn test_version_is_set() {
    assert!(!VERSION.is_empty());
    assert!(VERSION.contains('.'));
}

#[test]
fn test_module_loads() {
    assert!(!VERSION.is_empty());
}

#[test]
fn test_strategy_default() {
    assert_eq!(AnalysisStrategy::default(), AnalysisStrategy::Deep);
}

#[test]
fn value_objects_round_trip() {
    assert_eq!(FileSize::new(42).bytes(), 42);
    assert_eq!(FilePath::new("/a/b".to_string()).as_str(), "/a/b");
    let h = ComponentHealth::new("CPU".to_string(), HealthStatus::Healthy, "fine".to_string());
    assert!(h.recommendation.is_none());
    let h = h.with_recommendation("relax".to_string());
    assert_eq!(h.recommendation.as_deref(), Some("relax"));
}

#[test]
fn test_backend_detection_sentry() {
    let dsn = "https://key@o123.ingest.sentry.io/456";
    assert_eq!(ErrorTrackingBackend::from_dsn(dsn), ErrorTrackingBackend::Sentry);
}

#[test]
fn test_backend_detection_glitchtip() {
    let dsn = "https://key@glitchtip.example.com/456";
    assert_eq!(ErrorTrackingBackend::from_dsn(dsn), ErrorTrackingBackend::GlitchTip);
}

#[test]
fn test_backend_detection_localhost() {
    let dsn = "https://key@localhost:8000/456";
    assert_eq!(ErrorTrackingBackend::from_dsn(dsn), ErrorTrackingBackend::GlitchTip);
}

#[test]
fn backend_detection_unknown_stays_auto() {
    assert_eq!(
        ErrorTrackingBackend::from_dsn("https://key@tracker.example.org/1"),
        ErrorTrackingBackend::Auto
    );
    assert_eq!(ErrorTrackingBackend::default(), ErrorTrackingBackend::Auto);
    assert_eq!(ErrorTrackingBackend::Sentry.display_name(), "Sentry.io");
}

#[test]
fn test_extract_dsn_from_config_defaults_url() {
    let config = "defaults.url=https://key@host.com/123\n";
    assert_eq!(
        extract_dsn_from_config(config),
        Some("https://key@host.com/123".to_string())
    );
}

#[test]
fn test_extract_dsn_from_config_dsn() {
    let config = "[config]\ndsn=https://key@host.com/123\n";
    assert_eq!(
        extract_dsn_from_config(config),
        Some("https://key@host.com/123".to_string())
    );
}

#[test]
fn extract_dsn_rejects_other_lines() {
    assert_eq!(extract_dsn_from_config("token=abc\nname=x\n"), None);
    assert_eq!(extract_dsn_from_config("dsn=ftp://key@host.com/1\n"), None);
}

#[test]
fn test_mask_dsn() {
    let dsn = "https://abc123def456@localhost:8000/789";
    let masked = mask_dsn(dsn);
    assert_eq!(masked, "***@localhost:8000/");

    let dsn2 = "https://key@glitchtip.example.com/123";
    let masked2 = mask_dsn(dsn2);
    assert_eq!(masked2, "***@glitchtip.example.com/");
}

#[test]
fn mask_dsn_without_at_masks_everything() {
    assert_eq!(mask_dsn("plain-text"), "***");
    assert_eq!(mask_dsn("key@host-without-slash"), "***@host-without-slash");
}

#[test]
fn test_extract_date() {
    let id = "com.apple.TimeMachine.2025-01-20-143000";
    let date = TimeMachineManager::extract_date(id);
    assert!(date.is_some());
    assert_eq!(date.unwrap(), "2025-01-20 14300");
}

#[test]
fn snapshot_listing_and_pruning() {
    let listing = "header noise\ncom.apple.TimeMachine.2025-01-20-143000\nother\n  com.apple.TimeMachine.2020-01-01-000000\n";
    let snaps = TimeMachineManager::parse_snapshot_list(listing);
    assert_eq!(snaps.len(), 2);
    assert_eq!(snaps[0].id, "com.apple.TimeMachine.2025-01-20-143000");
    assert_eq!(snaps[1].id, "com.apple.TimeMachine.2020-01-01-000000");
    assert!(snaps[0].size.is_none());

    // Prune snapshots from before 2025.
    let cutoff = 1737331200; // 2025-01-20 00:00:00 UTC
    let doomed = TimeMachineManager::snapshots_to_delete(&snaps, cutoff);
    assert_eq!(doomed, vec!["com.apple.TimeMachine.2020-01-01-000000".to_string()]);
}

#[test]
fn snapshot_date_parsing() {
    assert_eq!(
        TimeMachineManager::parse_snapshot_date("2025-01-20 143000").unwrap(),
        1737383400
    );
    assert_eq!(
        TimeMachineManager::parse_snapshot_date("2025-01-20-143000").unwrap(),
        1737383400
    );
    // A bare date has no time of day, so none of the accepted date-time
    // formats fits it.
    assert!(TimeMachineManager::parse_snapshot_date("2025-01-20").is_err());
    let bad = TimeMachineManager::parse_snapshot_date("not a date");
    assert!(matches!(bad.unwrap_err(), Error::InvalidInput(_)));
}

#[test]
fn snapshot_size_queries_are_stubs() {
    assert_eq!(TimeMachineManager::get_snapshot_sizes().unwrap().len(), 0);
    assert_eq!(TimeMachineManager::total_snapshot_size().unwrap(), 0);
}

#[test]
fn clean_target_paths_and_expansion() {
    assert_eq!(CleanTarget::Temp.paths(), vec!["/tmp", "/var/tmp"]);
    assert_eq!(CleanTarget::All.paths().len(), 6);
    assert_eq!(expand_path("~/test", "/home/user"), "/home/user/test");
    assert_eq!(expand_path("/tmp/test", "/home/user"), "/tmp/test");
}

#[test]
fn test_expand_path() {
    let expanded = expand_path("~/test", "/home/user");
    assert!(expanded.contains("test"));
    assert!(!expanded.contains("~"));

    let absolute = expand_path("/tmp/test", "/home/user");
    assert_eq!(absolute, "/tmp/test");
}

#[test]
fn table_keeps_headers_and_rows() {
    let mut t = Table::new(vec!["name", "size"]);
    t.add_row(vec!["a.txt", "10"]);
    t.add_row(vec!["b.txt", "20"]);
    assert_eq!(t.headers(), &vec!["name".to_string(), "size".to_string()]);
    assert_eq!(t.rows().len(), 2);
    assert_eq!(t.rows()[1], vec!["b.txt".to_string(), "20".to_string()]);
}

#[test]
fn test_animation_creation() {
    let anim = DefragAnimation::new(40, 10);
    assert_eq!(anim.dimensions(), (40, 10));
}

#[test]
fn test_animation_update() {
    let mut anim = DefragAnimation::new(40, 10);
    let initial_frame = anim.frame();

    // A full interval has passed since the animation started.
    anim.update(1000);

    assert!(anim.frame() > initial_frame);
}

#[test]
fn test_animation_render() {
    let anim = DefragAnimation::default_size();
    let rendered = anim.render();

    // 20 rows of 80 block characters each.
    assert_eq!(rendered.lines().count(), 20);
    for line in rendered.lines() {
        assert_eq!(line.chars().count(), 80);
    }
}

#[test]
fn animation_throttles_between_frames() {
    let mut anim = DefragAnimation::new(10, 5);
    anim.update(60);
    let f = anim.frame();
    anim.update(70); // only 10ms later: no new frame
    assert_eq!(anim.frame(), f);
    anim.update(120);
    assert_eq!(anim.frame(), f + 1);
}

#[test]
fn parse_size_reads_units() {
    assert_eq!(parse_size("100").unwrap(), 100);
    assert_eq!(parse_size("100B").unwrap(), 100);
    assert_eq!(parse_size("2KB").unwrap(), 2048);
    assert_eq!(parse_size("100MB").unwrap(), 104857600);
    assert_eq!(parse_size("1gb").unwrap(), 1073741824);
    assert_eq!(parse_size("2TB").unwrap(), 2199023255552);
    assert_eq!(parse_size(" 512 ").unwrap(), 512);
    assert_eq!(parse_size("+5").unwrap(), 5);
}

#[test]
fn parse_size_rejects_malformed_input() {
    assert!(matches!(parse_size("").unwrap_err(), Error::InvalidInput(_)));
    assert!(matches!(parse_size("abc").unwrap_err(), Error::InvalidInput(_)));
    assert!(matches!(parse_size("12x4").unwrap_err(), Error::InvalidInput(_)));
    assert!(matches!(parse_size("MB").unwrap_err(), Error::InvalidInput(_)));
    // Too big for a u64 once scaled.
    assert!(parse_size("999999999999999999999").is_err());
    assert!(parse_size("99999999999999999TB").is_err());
}
