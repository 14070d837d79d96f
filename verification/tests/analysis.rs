//! Discovery and collision-resolution scenarios.

use mascopy::analyzer::Analyzer;
use mascopy::analyzer::TargetIndex;
use mascopy::dates::CaptureDate;
use mascopy::scanner::Disposition;
use mascopy::scanner::MediaFile;
use mascopy::scanner::MediaKind;
use mascopy::scanner::ScanEntry;
use mascopy::scanner::Scanner;

fn day(year: i32, month: u32, day_of_month: u32, secs: i64) -> CaptureDate {
    CaptureDate { secs, year, month, day: day_of_month }
}

fn record(path: &str, name: &str, size: u64, date: CaptureDate) -> MediaFile {
    MediaFile {
        path: path.to_string(),
        filename: name.to_string(),
        size,
        date,
        file_type: MediaKind::Photo,
        status: Disposition::Pending,
        target_path: String::new(),
    }
}

fn entry(path: &str, name: &str, size: u64, mtime: i64) -> ScanEntry {
    ScanEntry {
        path: path.to_string(),
        filename: name.to_string(),
        is_file: true,
        dir_names: Vec::new(),
        size,
        modified_secs: Some(mtime),
        exif_datetime: None,
        video_created_secs: None,
    }
}

#[test]
fn scan_keeps_supported_files_and_fills_records() {
    let scanner = Scanner::with_mode("sd");
    let entries = vec![
        entry("/src/IMG_1.JPG", "IMG_1.JPG", 100, 1000),
        entry("/src/notes.txt", "notes.txt", 5, 1000),
        entry("/src/clip.mkv", "clip.mkv", 900, 2000),
    ];
    let files = scanner.scan(&entries, true, true, 5000);
    assert_eq!(files.len(), 2);
    assert_eq!(files[0].filename, "IMG_1.JPG");
    assert_eq!(files[0].file_type, MediaKind::Photo);
    assert_eq!(files[0].status, Disposition::Pending);
    assert_eq!(files[0].target_path, "");
    assert_eq!(files[0].date.secs, 1000);
    assert_eq!(files[1].filename, "clip.mkv");
    assert_eq!(files[1].file_type, MediaKind::Video);
}

#[test]
fn scan_excludes_hidden_and_directories() {
    let scanner = Scanner::with_mode("sd");
    let mut dot = entry("/src/.hidden.jpg", ".hidden.jpg", 1, 0);
    let mut shadow = entry("/src/._IMG.jpg", "._IMG.jpg", 1, 0);
    let mut dir = entry("/src/folder.jpg", "folder.jpg", 1, 0);
    dir.is_file = false;
    dot.size = 1;
    shadow.size = 1;
    let files = scanner.scan(&vec![dot, shadow, dir], true, true, 0);
    assert!(files.is_empty());
}

#[test]
fn scan_excludes_thumbnail_caches_only_when_asked() {
    let scanner = Scanner::with_mode("sd");
    let mut cached = entry("/src/THMBNL/IMG.jpg", "IMG.jpg", 1, 0);
    cached.dir_names = vec!["DCIM".to_string(), "THMBNL".to_string()];
    let mut named = entry("/src/thumbnails/IMG2.jpg", "IMG2.jpg", 1, 0);
    named.dir_names = vec!["MyThumbnails".to_string()];
    let kept = scanner.scan(&vec![cached.clone(), named.clone()], true, false, 0);
    assert_eq!(kept.len(), 2);
    let excluded = scanner.scan(&vec![cached, named], true, true, 0);
    assert!(excluded.is_empty());
}

#[test]
fn scan_matches_extensions_case_insensitively() {
    let scanner = Scanner::with_mode("sd");
    let files = scanner.scan(&vec![entry("/s/A.HeIc", "A.HeIc", 1, 0)], true, true, 0);
    assert_eq!(files.len(), 1);
    assert_eq!(files[0].file_type, MediaKind::Photo);
}

#[test]
fn drone_mode_narrows_the_extension_sets() {
    let dji = Scanner::with_mode("dji");
    let sd = Scanner::with_mode("sd");
    let lrf = entry("/s/shot.LRF", "shot.LRF", 1, 0);
    let mkv = entry("/s/clip.mkv", "clip.mkv", 1, 0);
    let from_dji = dji.scan(&vec![lrf.clone(), mkv.clone()], true, true, 0);
    assert_eq!(from_dji.len(), 1);
    assert_eq!(from_dji[0].filename, "shot.LRF");
    assert_eq!(from_dji[0].file_type, MediaKind::Photo);
    let from_sd = sd.scan(&vec![lrf, mkv], true, true, 0);
    assert_eq!(from_sd.len(), 1);
    assert_eq!(from_sd[0].filename, "clip.mkv");
}

#[test]
fn scan_without_fast_mode_uses_metadata_chain() {
    let scanner = Scanner::with_mode("sd");
    let mut e = entry("/s/a.jpg", "a.jpg", 1, 777);
    e.exif_datetime = Some("definitely not a date".to_string());
    let files = scanner.scan(&vec![e], false, true, 999);
    assert_eq!(files.len(), 1);
    // Unusable embedded text falls through to the modification time.
    assert_eq!(files[0].date.secs, 777);
}

#[test]
fn exact_size_duplicate_resolves_to_skip() {
    let mut index = TargetIndex::new();
    index.add("2024-05-01".to_string(), "IMG_0001.JPG".to_string(), 2048);
    let mut files = vec![record("/sd/IMG_0001.JPG", "IMG_0001.JPG", 2048, day(2024, 5, 1, 10))];
    Analyzer::analyze(&mut files, "/t", &index, false);
    assert_eq!(files[0].status, Disposition::Skip);
    assert_eq!(files[0].target_path, "/t/2024-05-01/IMG_0001.JPG");
}

#[test]
fn exact_size_duplicate_skips_even_with_overwrite_enabled() {
    let mut index = TargetIndex::new();
    index.add("2024-05-01".to_string(), "IMG_0001.JPG".to_string(), 2048);
    let mut files = vec![record("/sd/IMG_0001.JPG", "IMG_0001.JPG", 2048, day(2024, 5, 1, 10))];
    Analyzer::analyze(&mut files, "/t", &index, true);
    assert_eq!(files[0].status, Disposition::Skip);
    assert_eq!(files[0].target_path, "/t/2024-05-01/IMG_0001.JPG");
}

#[test]
fn different_size_without_overwrite_renames() {
    let mut index = TargetIndex::new();
    index.add("2024-05-01".to_string(), "IMG_0001.JPG".to_string(), 5120);
    let mut files = vec![record("/sd/IMG_0001.JPG", "IMG_0001.JPG", 2048, day(2024, 5, 1, 10))];
    Analyzer::analyze(&mut files, "/t", &index, false);
    assert_eq!(files[0].status, Disposition::Upload);
    assert_eq!(files[0].target_path, "/t/2024-05-01/IMG_0001_1.JPG");
}

#[test]
fn different_size_with_overwrite_targets_the_existing_file() {
    let mut index = TargetIndex::new();
    index.add("2024-05-01".to_string(), "IMG_0001.JPG".to_string(), 5120);
    let mut files = vec![record("/sd/IMG_0001.JPG", "IMG_0001.JPG", 2048, day(2024, 5, 1, 10))];
    Analyzer::analyze(&mut files, "/t", &index, true);
    assert_eq!(files[0].status, Disposition::Overwrite);
    assert_eq!(files[0].target_path, "/t/2024-05-01/IMG_0001.JPG");
}

#[test]
fn overwrite_never_applies_to_a_renamed_variant() {
    let mut index = TargetIndex::new();
    index.add("2024-05-01".to_string(), "clip.mp4".to_string(), 10);
    index.add("2024-05-01".to_string(), "clip_1.mp4".to_string(), 20);
    // The record collides with both; the renamed variant differs in size,
    // yet with overwrite enabled it must keep renaming, not overwrite.
    let mut files = vec![record("/sd/a/clip.mp4", "clip.mp4", 10, day(2024, 5, 1, 10))];
    Analyzer::analyze(&mut files, "/t", &index, true);
    // Equal size at the original name: a skip, not an overwrite.
    assert_eq!(files[0].status, Disposition::Skip);
    let mut files2 = vec![record("/sd/a/clip.mp4", "clip.mp4", 30, day(2024, 5, 1, 10))];
    let mut index2 = TargetIndex::new();
    index2.add("2024-05-01".to_string(), "clip_1.mp4".to_string(), 20);
    index2.add("2024-05-01".to_string(), "clip.mp4".to_string(), 99);
    // Overwrite applies at the original name only.
    Analyzer::analyze(&mut files2, "/t", &index2, true);
    assert_eq!(files2[0].status, Disposition::Overwrite);
    assert_eq!(files2[0].target_path, "/t/2024-05-01/clip.mp4");
}

#[test]
fn same_batch_collision_renames_second_file() {
    let index = TargetIndex::new();
    let mut files = vec![
        record("/sd/b/clip.mp4", "clip.mp4", 2000, day(2024, 5, 1, 10)),
        record("/sd/a/clip.mp4", "clip.mp4", 1000, day(2024, 5, 1, 10)),
    ];
    Analyzer::analyze(&mut files, "/t", &index, false);
    // Sorted by date, name, then source path: /sd/a comes first.
    assert_eq!(files[0].path, "/sd/a/clip.mp4");
    assert_eq!(files[0].status, Disposition::Upload);
    assert_eq!(files[0].target_path, "/t/2024-05-01/clip.mp4");
    assert_eq!(files[1].path, "/sd/b/clip.mp4");
    assert_eq!(files[1].status, Disposition::Upload);
    assert_eq!(files[1].target_path, "/t/2024-05-01/clip_1.mp4");
}

#[test]
fn suffixes_increase_without_gaps_and_never_reuse_names() {
    let mut index = TargetIndex::new();
    index.add("2024-05-01".to_string(), "clip.mp4".to_string(), 999);
    let mut files = vec![
        record("/sd/a/clip.mp4", "clip.mp4", 1, day(2024, 5, 1, 10)),
        record("/sd/b/clip.mp4", "clip.mp4", 2, day(2024, 5, 1, 10)),
        record("/sd/c/clip.mp4", "clip.mp4", 3, day(2024, 5, 1, 10)),
    ];
    Analyzer::analyze(&mut files, "/t", &index, false);
    assert_eq!(files[0].target_path, "/t/2024-05-01/clip_1.mp4");
    assert_eq!(files[1].target_path, "/t/2024-05-01/clip_2.mp4");
    assert_eq!(files[2].target_path, "/t/2024-05-01/clip_3.mp4");
    for f in &files {
        assert_eq!(f.status, Disposition::Upload);
    }
}

#[test]
fn different_capture_dates_do_not_collide() {
    let index = TargetIndex::new();
    let mut files = vec![
        record("/sd/a/IMG.jpg", "IMG.jpg", 1, day(2024, 5, 1, 10)),
        record("/sd/b/IMG.jpg", "IMG.jpg", 2, day(2024, 5, 2, 20)),
    ];
    Analyzer::analyze(&mut files, "/t", &index, false);
    assert_eq!(files[0].target_path, "/t/2024-05-01/IMG.jpg");
    assert_eq!(files[1].target_path, "/t/2024-05-02/IMG.jpg");
    assert_eq!(files[0].status, Disposition::Upload);
    assert_eq!(files[1].status, Disposition::Upload);
}

#[test]
fn analysis_sorts_by_date_then_name() {
    let index = TargetIndex::new();
    let mut files = vec![
        record("/sd/z.jpg", "z.jpg", 1, day(2024, 5, 2, 200)),
        record("/sd/b.jpg", "b.jpg", 2, day(2024, 5, 1, 100)),
        record("/sd/a.jpg", "a.jpg", 3, day(2024, 5, 1, 100)),
    ];
    Analyzer::analyze(&mut files, "/t", &index, false);
    assert_eq!(files[0].filename, "a.jpg");
    assert_eq!(files[1].filename, "b.jpg");
    assert_eq!(files[2].filename, "z.jpg");
}

#[test]
fn analysis_is_deterministic_across_runs() {
    let build = || {
        vec![
            record("/sd/b/clip.mp4", "clip.mp4", 2000, day(2024, 5, 1, 10)),
            record("/sd/a/clip.mp4", "clip.mp4", 1000, day(2024, 5, 1, 10)),
            record("/sd/c/IMG.jpg", "IMG.jpg", 5, day(2024, 5, 2, 99)),
        ]
    };
    let mut index1 = TargetIndex::new();
    index1.add("2024-05-01".to_string(), "clip.mp4".to_string(), 123);
    let mut index2 = TargetIndex::new();
    index2.add("2024-05-01".to_string(), "clip.mp4".to_string(), 123);
    let mut run1 = build();
    let mut run2 = build();
    Analyzer::analyze(&mut run1, "/t", &index1, false);
    Analyzer::analyze(&mut run2, "/t", &index2, false);
    assert_eq!(run1.len(), run2.len());
    for (a, b) in run1.iter().zip(run2.iter()) {
        assert_eq!(a.path, b.path);
        assert_eq!(a.status, b.status);
        assert_eq!(a.target_path, b.target_path);
    }
}

#[test]
fn file_without_extension_renames_without_one() {
    let mut index = TargetIndex::new();
    index.add("2024-05-01".to_string(), "README".to_string(), 50);
    let mut files = vec![record("/sd/README", "README", 60, day(2024, 5, 1, 10))];
    Analyzer::analyze(&mut files, "/t", &index, false);
    assert_eq!(files[0].target_path, "/t/2024-05-01/README_1");
}
