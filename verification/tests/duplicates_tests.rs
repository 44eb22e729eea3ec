//! Tests for the duplicate-detection engine and the disk analyzer.

use dragonfly::analyzer::DiskAnalyzer;
use dragonfly::domain::{FileEntity, FilePath};
use dragonfly::duplicates::DuplicateDetector;
use dragonfly::error::Error;
use dragonfly::hashing::HashAlgorithm;
use dragonfly::vfs::VirtualFs;

fn fs_with(files: &[(&str, &str, &[u8])]) -> VirtualFs {
    let mut fs = VirtualFs::new();
    for (dir, path, content) in files {
        fs.add_dir(dir.to_string());
        fs.add_file(dir, path, content.to_vec()).unwrap();
    }
    fs
}

#[test]
fn should_find_duplicate_files_with_same_content() {
    let test_content = b"identical content";
    let fs = fs_with(&[
        ("/scan", "/scan/file1.txt", test_content),
        ("/scan", "/scan/file2.txt", test_content),
        ("/scan", "/scan/file3.txt", b"different content"),
    ]);

    let detector = DuplicateDetector::new();
    let path = FilePath::new("/scan".to_string());
    let result = detector.find_duplicates(&fs, &path, 0).unwrap();

    assert_eq!(result.duplicates.len(), 1);
    assert_eq!(result.duplicates[0].len(), 2);
    assert!(result.duplicates[0].iter().any(|f| f.path == "/scan/file1.txt"));
    assert!(result.duplicates[0].iter().any(|f| f.path == "/scan/file2.txt"));
    assert!(!result.duplicates[0].iter().any(|f| f.path == "/scan/file3.txt"));
}

#[test]
fn should_not_find_duplicates_when_files_differ() {
    let fs = fs_with(&[
        ("/scan", "/scan/file1.txt", b"content one"),
        ("/scan", "/scan/file2.txt", b"content two"),
        ("/scan", "/scan/file3.txt", b"content three"),
    ]);

    let detector = DuplicateDetector::new();
    let path = FilePath::new("/scan".to_string());
    let result = detector.find_duplicates(&fs, &path, 0).unwrap();

    assert_eq!(result.duplicates.len(), 0);
    assert_eq!(result.potential_savings, 0);
}

#[test]
fn should_group_multiple_duplicate_sets() {
    let content_a: &[u8] = b"content A";
    let content_b: &[u8] = b"content B";
    let fs = fs_with(&[
        ("/scan", "/scan/a1.txt", content_a),
        ("/scan", "/scan/a2.txt", content_a),
        ("/scan", "/scan/b1.txt", content_b),
        ("/scan", "/scan/b2.txt", content_b),
        ("/scan", "/scan/b3.txt", content_b),
    ]);

    let detector = DuplicateDetector::new();
    let path = FilePath::new("/scan".to_string());
    let result = detector.find_duplicates(&fs, &path, 0).unwrap();

    assert_eq!(result.duplicates.len(), 2);
    assert_eq!(result.duplicates[0].len(), 2);
    assert_eq!(result.duplicates[1].len(), 3);
}

#[test]
fn should_filter_by_minimum_size() {
    let large_content = vec![0u8; 1024];
    let small_content: &[u8] = b"tiny";
    let fs = fs_with(&[
        ("/scan", "/scan/large1.txt", &large_content),
        ("/scan", "/scan/large2.txt", &large_content),
        ("/scan", "/scan/small1.txt", small_content),
        ("/scan", "/scan/small2.txt", small_content),
    ]);

    let detector = DuplicateDetector::new();
    let path = FilePath::new("/scan".to_string());

    let result = detector.find_duplicates(&fs, &path, 100).unwrap();
    assert_eq!(result.duplicates.len(), 1);
    assert_eq!(result.duplicates[0].len(), 2);

    let result_all = detector.find_duplicates(&fs, &path, 0).unwrap();
    assert_eq!(result_all.duplicates.len(), 2);
}

#[test]
fn should_calculate_correct_space_savings() {
    let content = vec![0u8; 1000];
    let fs = fs_with(&[
        ("/scan", "/scan/dup1.txt", &content),
        ("/scan", "/scan/dup2.txt", &content),
        ("/scan", "/scan/dup3.txt", &content),
    ]);

    let detector = DuplicateDetector::new();
    let path = FilePath::new("/scan".to_string());
    let result = detector.find_duplicates(&fs, &path, 0).unwrap();

    // 3 files of 1000 bytes; keeping one leaves 2000 reclaimable.
    assert_eq!(result.potential_savings, 2000);
}

#[test]
fn should_return_error_for_nonexistent_path() {
    let detector = DuplicateDetector::new();
    let fs = VirtualFs::new();
    let path = FilePath::new("/nonexistent/path/12345".to_string());

    let result = detector.find_duplicates(&fs, &path, 0);
    assert!(result.is_err());
    assert!(matches!(result.unwrap_err(), Error::NotFound(_)));
}

#[test]
fn should_calculate_savings_correctly() {
    let duplicates = vec![
        vec![
            FileEntity { path: "file1.txt".to_string(), size: 1000 },
            FileEntity { path: "file2.txt".to_string(), size: 1000 },
        ],
        vec![
            FileEntity { path: "file3.txt".to_string(), size: 500 },
            FileEntity { path: "file4.txt".to_string(), size: 500 },
            FileEntity { path: "file5.txt".to_string(), size: 500 },
        ],
    ];

    // Group 1 reclaims 1000; group 2 reclaims 1000.
    assert_eq!(DuplicateDetector::calculate_savings(&duplicates), 2000);
}

#[test]
fn test_detector_creation() {
    let detector = DuplicateDetector::new();
    assert_eq!(detector.algorithm, HashAlgorithm::Blake3);
}

#[test]
fn test_detector_with_algorithm() {
    let detector = DuplicateDetector::with_algorithm(HashAlgorithm::XxHash3);
    assert_eq!(detector.algorithm, HashAlgorithm::XxHash3);
}

#[test]
fn test_default_algorithm() {
    assert_eq!(HashAlgorithm::default(), HashAlgorithm::Blake3);
}

#[test]
fn xxhash_detector_distinguishes_content() {
    let fs = fs_with(&[
        ("/scan", "/scan/x1", b"same bytes"),
        ("/scan", "/scan/x2", b"same bytes"),
        ("/scan", "/scan/x3", b"other bytes"),
    ]);
    let detector = DuplicateDetector::with_algorithm(HashAlgorithm::XxHash3);
    let path = FilePath::new("/scan".to_string());
    let result = detector.find_duplicates(&fs, &path, 0).unwrap();
    assert_eq!(result.duplicates.len(), 1);
    assert_eq!(result.duplicates[0].len(), 2);
}

#[test]
fn duplicates_scenario_two_identical_one_different() {
    // Three files of 1000 bytes: two share content, one differs.
    let x = vec![b'X'; 1000];
    let y = vec![b'Y'; 1000];
    let fs = fs_with(&[
        ("/scan", "/scan/a.txt", &x),
        ("/scan", "/scan/b.txt", &x),
        ("/scan", "/scan/c.txt", &y),
    ]);
    let detector = DuplicateDetector::new();
    let path = FilePath::new("/scan".to_string());
    let result = detector.find_duplicates(&fs, &path, 0).unwrap();
    assert_eq!(result.duplicates.len(), 1);
    assert_eq!(result.duplicates[0].len(), 2);
    assert_eq!(result.potential_savings, 1000);
}

#[test]
fn test_analyzer_creation() {
    let analyzer = DiskAnalyzer::new();
    assert_eq!(std::mem::size_of_val(&analyzer), 0);
}

#[test]
fn analyzer_totals_and_large_files() {
    let fs = fs_with(&[
        ("/scan", "/scan/big", &vec![1u8; 300]),
        ("/scan", "/scan/small", &vec![2u8; 10]),
    ]);
    let analyzer = DiskAnalyzer::new();
    let path = FilePath::new("/scan".to_string());
    let res = analyzer.analyze(&fs, &path).unwrap();
    assert_eq!(res.total_size, 310);
    assert_eq!(res.files.len(), 2);
    let large = analyzer.find_large_files(&fs, &path, 100).unwrap();
    assert_eq!(large.len(), 1);
    assert_eq!(large[0].path, "/scan/big");
    assert!(analyzer.analyze(&fs, &FilePath::new("/absent".to_string())).is_err());
}
