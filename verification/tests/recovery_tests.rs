//! Tests for the recovery store, archive/restore round-trips, and the
//! cleanup orchestrator.

use dragonfly::cleaner::{CleanTarget, SystemCleaner};
use dragonfly::recovery::RecoveryManager;
use dragonfly::vfs::VirtualFs;

const NOW: u64 = 1737383400; // 2025-01-20 14:30:00 UTC

#[test]
fn test_recovery_manager_creation() {
    let mut manager = RecoveryManager::new("/recovery".to_string());
    manager.initialize();
    assert_eq!(manager.list_recoveries().len(), 0);
}

#[test]
fn test_manifest_creation() {
    let mut manager = RecoveryManager::new("/recovery".to_string());
    manager.initialize();

    let manifest = manager.create_manifest(NOW, 30);
    assert!(!manifest.id.is_empty());
    assert!(manifest.items.is_empty());
    assert_eq!(manifest.total_size, 0);
}

#[test]
fn manifest_id_renders_creation_time() {
    let manager = RecoveryManager::new("/recovery".to_string());
    assert_eq!(manager.create_manifest(0, 1).id, "1970-01-01_00-00-00");
    assert_eq!(manager.create_manifest(NOW, 1).id, "2025-01-20_14-30-00");
    assert_eq!(manager.create_manifest(NOW, 2).retention_until, NOW + 2 * 86400);
}

#[test]
fn initialize_twice_keeps_index_entries() {
    let mut manager = RecoveryManager::new("/recovery".to_string());
    manager.initialize();
    let manifest = manager.create_manifest(NOW, 30);
    manager.save_manifest(&manifest);
    assert_eq!(manager.list_recoveries().len(), 1);

    // A second initialization must not clobber the index.
    manager.initialize();
    let listed = manager.list_recoveries();
    assert_eq!(listed.len(), 1);
    assert_eq!(listed[0].id, manifest.id);
}

#[test]
fn save_manifest_is_idempotent_in_the_index() {
    let mut manager = RecoveryManager::new("/recovery".to_string());
    manager.initialize();
    let manifest = manager.create_manifest(NOW, 30);
    manager.save_manifest(&manifest);
    manager.save_manifest(&manifest);
    assert_eq!(manager.list_recoveries().len(), 1);
}

#[test]
fn load_manifest_missing_id_is_not_found() {
    let manager = RecoveryManager::new("/recovery".to_string());
    let r = manager.load_manifest("2001-01-01_00-00-00");
    assert!(r.is_err());
    assert!(r.unwrap_err().is_not_found());
}

#[test]
fn archive_then_restore_round_trips() {
    let mut fs = VirtualFs::new();
    fs.add_dir("/tmp".to_string());
    fs.add_file("/tmp", "/tmp/doomed.txt", b"precious bytes".to_vec()).unwrap();

    let mut manager = RecoveryManager::new("/recovery".to_string());
    manager.initialize();
    let mut manifest = manager.create_manifest(NOW, 30);

    let item = manager
        .archive_file(&mut fs, "/tmp/doomed.txt", "temp", "test", false, &mut manifest)
        .unwrap();
    manager.save_manifest(&manifest);

    // The file left the filesystem and the item records it.
    assert!(!fs.file_exists("/tmp/doomed.txt"));
    assert_eq!(item.original_path, "/tmp/doomed.txt");
    assert_eq!(item.size, 14);
    assert_eq!(manifest.total_size, 14);

    // Restoring the manifest puts the bytes back at the original path.
    let (count, bytes) = manager.restore_recovery(&mut fs, &manifest.id).unwrap();
    assert_eq!(count, 1);
    assert_eq!(bytes, 14);
    assert!(fs.file_exists("/tmp/doomed.txt"));
    let idx = fs.find_file("/tmp/doomed.txt").unwrap();
    assert_eq!(fs.files[idx].content, b"precious bytes".to_vec());
}

#[test]
fn restore_skips_item_with_wrong_checksum() {
    let mut fs = VirtualFs::new();
    fs.add_dir("/tmp".to_string());
    fs.add_file("/tmp", "/tmp/a", b"aaa".to_vec()).unwrap();
    fs.add_file("/tmp", "/tmp/b", b"bbb".to_vec()).unwrap();

    let mut manager = RecoveryManager::new("/recovery".to_string());
    manager.initialize();
    let mut manifest = manager.create_manifest(NOW, 30);
    manager.archive_file(&mut fs, "/tmp/a", "temp", "test", false, &mut manifest).unwrap();
    manager.archive_file(&mut fs, "/tmp/b", "temp", "test", false, &mut manifest).unwrap();

    // Corrupt the first item's recorded checksum.
    manifest.items[0].checksum = "not a real digest".to_string();
    manager.save_manifest(&manifest);

    let (count, bytes) = manager.restore_recovery(&mut fs, &manifest.id).unwrap();
    assert_eq!(count, 1);
    assert_eq!(bytes, 3);
    assert!(!fs.file_exists("/tmp/a"));
    assert!(fs.file_exists("/tmp/b"));
}

#[test]
fn restore_missing_manifest_is_not_found() {
    let mut fs = VirtualFs::new();
    let mut manager = RecoveryManager::new("/recovery".to_string());
    let r = manager.restore_recovery(&mut fs, "2001-01-01_00-00-00");
    assert!(r.is_err());
    assert!(r.unwrap_err().is_not_found());
}

#[test]
fn cleanup_expired_purges_only_expired_recoveries() {
    let mut manager = RecoveryManager::new("/recovery".to_string());
    manager.initialize();

    // One manifest from long ago with a one-day retention, one fresh.
    let old_manifest = manager.create_manifest(NOW - 10 * 86400, 1);
    let fresh_manifest = manager.create_manifest(NOW, 30);
    manager.save_manifest(&old_manifest);
    manager.save_manifest(&fresh_manifest);
    assert_eq!(manager.list_recoveries().len(), 2);

    let cleaned = manager.cleanup_expired(NOW);
    assert_eq!(cleaned.len(), 1);
    assert_eq!(cleaned[0], old_manifest.id);

    // The expired id is gone from the listing; the fresh one stays.
    let listed = manager.list_recoveries();
    assert_eq!(listed.len(), 1);
    assert_eq!(listed[0].id, fresh_manifest.id);
    assert!(!listed.iter().any(|m| m.id == old_manifest.id));
}

#[test]
fn cleanup_expired_keeps_everything_inside_retention() {
    let mut manager = RecoveryManager::new("/recovery".to_string());
    manager.initialize();
    let manifest = manager.create_manifest(NOW, 30);
    manager.save_manifest(&manifest);

    let cleaned = manager.cleanup_expired(NOW);
    assert_eq!(cleaned.len(), 0);
    assert_eq!(manager.list_recoveries().len(), 1);
}

#[test]
fn list_recoveries_sorts_newest_first() {
    let mut manager = RecoveryManager::new("/recovery".to_string());
    manager.initialize();
    let older = manager.create_manifest(NOW - 100, 30);
    let newer = manager.create_manifest(NOW, 30);
    manager.save_manifest(&older);
    manager.save_manifest(&newer);

    let listed = manager.list_recoveries();
    assert_eq!(listed.len(), 2);
    assert_eq!(listed[0].id, newer.id);
    assert_eq!(listed[1].id, older.id);
}

#[test]
fn archive_dir_names_the_recovery_folder() {
    let manager = RecoveryManager::new("/recovery".to_string());
    assert_eq!(manager.archive_dir("2025-01-20_14-30-00"), "/recovery/archives/2025-01-20_14-30-00");
}

#[test]
fn test_cleaner_creation() {
    let cleaner = SystemCleaner::new();
    assert_eq!(std::mem::size_of_val(&cleaner), 0);
}

#[test]
fn test_clean_dry_run() {
    // A dry run on a filesystem without the target roots finds nothing and
    // deletes nothing.
    let mut fs = VirtualFs::new();
    let mut manager = RecoveryManager::new("/recovery".to_string());
    let cleaner = SystemCleaner::new();
    let result = cleaner.clean(
        &mut fs,
        &mut manager,
        CleanTarget::Caches,
        true,
        "/home/user",
        NOW,
        30,
    );
    assert_eq!(result.files_found.len(), 0);
    assert_eq!(result.bytes_freed, 0);
    assert_eq!(result.files_cleaned, 0);
}

#[test]
fn clean_live_archives_before_deleting() {
    let mut fs = VirtualFs::new();
    fs.add_dir("/tmp".to_string());
    fs.add_dir("/var/tmp".to_string());
    fs.add_file("/tmp", "/tmp/junk1", vec![0u8; 100]).unwrap();
    fs.add_file("/var/tmp", "/var/tmp/junk2", vec![1u8; 50]).unwrap();

    let mut manager = RecoveryManager::new("/recovery".to_string());
    manager.initialize();
    let cleaner = SystemCleaner::new();
    let result = cleaner.clean(
        &mut fs,
        &mut manager,
        CleanTarget::Temp,
        false,
        "/home/user",
        NOW,
        30,
    );

    assert_eq!(result.files_cleaned, 2);
    assert_eq!(result.bytes_freed, 150);
    assert!(!fs.file_exists("/tmp/junk1"));
    assert!(!fs.file_exists("/var/tmp/junk2"));

    // Nothing was destroyed: the run's manifest restores both files.
    let listed = manager.list_recoveries();
    assert_eq!(listed.len(), 1);
    let (count, bytes) = manager.restore_recovery(&mut fs, &listed[0].id.clone()).unwrap();
    assert_eq!(count, 2);
    assert_eq!(bytes, 150);
    assert!(fs.file_exists("/tmp/junk1"));
    assert!(fs.file_exists("/var/tmp/junk2"));
}

#[test]
fn clean_dry_run_counts_target_files() {
    let mut fs = VirtualFs::new();
    fs.add_dir("/tmp".to_string());
    fs.add_file("/tmp", "/tmp/junk", vec![9u8; 64]).unwrap();
    fs.add_dir("/elsewhere".to_string());
    fs.add_file("/elsewhere", "/elsewhere/keep", vec![9u8; 7]).unwrap();

    let mut manager = RecoveryManager::new("/recovery".to_string());
    let cleaner = SystemCleaner::new();
    let result = cleaner.clean(
        &mut fs,
        &mut manager,
        CleanTarget::Temp,
        true,
        "/home/user",
        NOW,
        30,
    );
    assert_eq!(result.files_found, vec!["/tmp/junk".to_string()]);
    assert_eq!(result.bytes_freed, 64);
    // Dry run: everything is still there.
    assert!(fs.file_exists("/tmp/junk"));
    assert!(fs.file_exists("/elsewhere/keep"));
}
