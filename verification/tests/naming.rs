//! Names, dates, metadata parsing, errors and configuration defaults.

use mascopy::analyzer::Analyzer;
use mascopy::config::Config;
use mascopy::config::ConfigManager;
use mascopy::config::Favorites;
use mascopy::config::ModeConfig;
use mascopy::dates::CaptureDate;
use mascopy::error::AppError;
use mascopy::metadata::MetadataExtractor;
use mascopy::names::dec_string;
use mascopy::names::padded_string;
use mascopy::names::str_contains_ci;
use mascopy::names::str_eq;
use mascopy::names::str_eq_ci;
use mascopy::names::str_le;

#[test]
fn unique_name_appends_counter_before_extension() {
    assert_eq!(Analyzer::make_unique_name("IMG_0001.JPG", 1), "IMG_0001_1.JPG");
    assert_eq!(Analyzer::make_unique_name("IMG_0001.JPG", 12), "IMG_0001_12.JPG");
}

#[test]
fn unique_name_without_extension_keeps_none() {
    assert_eq!(Analyzer::make_unique_name("clip", 2), "clip_2");
}

#[test]
fn unique_name_trailing_dot_drops_empty_extension() {
    assert_eq!(Analyzer::make_unique_name("foo.", 1), "foo_1");
}

#[test]
fn unique_name_attempt_zero_is_original() {
    assert_eq!(Analyzer::make_unique_name("a.b.c.jpg", 0), "a.b.c.jpg");
}

#[test]
fn unique_name_splits_at_final_dot() {
    assert_eq!(Analyzer::make_unique_name("a.b.c.jpg", 3), "a.b.c_3.jpg");
}

#[test]
fn decimal_rendering_exact() {
    assert_eq!(dec_string(0), "0");
    assert_eq!(dec_string(7), "7");
    assert_eq!(dec_string(1234), "1234");
    assert_eq!(dec_string(1000000), "1000000");
}

#[test]
fn zero_padding_exact() {
    assert_eq!(padded_string(5, 2), "05");
    assert_eq!(padded_string(12, 2), "12");
    assert_eq!(padded_string(123, 2), "123");
    assert_eq!(padded_string(7, 4), "0007");
}

#[test]
fn string_order_and_equality() {
    assert!(str_le("apple", "banana"));
    assert!(!str_le("banana", "apple"));
    assert!(str_le("app", "apple"));
    assert!(str_eq("same", "same"));
    assert!(!str_eq("same", "sane"));
}

#[test]
fn case_insensitive_matching() {
    assert!(str_eq_ci("JPG", "jpg"));
    assert!(str_eq_ci("HeIc", "hEiC"));
    assert!(!str_eq_ci("jpg", "jpeg"));
    assert!(str_contains_ci("MyThumbnailCache", "thumbnail"));
    assert!(!str_contains_ci("pictures", "thumbnail"));
}

#[test]
fn folder_name_is_padded_calendar_day() {
    let d = CaptureDate { secs: 0, year: 2024, month: 5, day: 1 };
    assert_eq!(d.folder_name(), "2024-05-01");
    let d2 = CaptureDate { secs: 0, year: 987, month: 12, day: 31 };
    assert_eq!(d2.folder_name(), "0987-12-31");
}

#[test]
fn from_timestamp_keeps_seconds_and_plausible_day() {
    let d = CaptureDate::from_timestamp(0);
    assert_eq!(d.secs, 0);
    assert!((1..=12).contains(&d.month));
    assert!((1..=31).contains(&d.day));
}

#[test]
fn exif_datetime_parses_standard_form() {
    let p = MetadataExtractor::parse_exif_datetime("2024:05:01 10:30:00").unwrap();
    assert_eq!(
        (p.year, p.month, p.day, p.hour, p.minute, p.second),
        (2024, 5, 1, 10, 30, 0)
    );
}

#[test]
fn exif_datetime_parses_dashed_form() {
    let p = MetadataExtractor::parse_exif_datetime("1999-12-31T23-59-59").unwrap();
    assert_eq!(
        (p.year, p.month, p.day, p.hour, p.minute, p.second),
        (1999, 12, 31, 23, 59, 59)
    );
}

#[test]
fn exif_datetime_rejects_bad_text() {
    assert!(MetadataExtractor::parse_exif_datetime("").is_none());
    assert!(MetadataExtractor::parse_exif_datetime("2024:05:01").is_none());
    assert!(MetadataExtractor::parse_exif_datetime("2024:13:01 10:30:00").is_none());
    assert!(MetadataExtractor::parse_exif_datetime("2024:05:00 10:30:00").is_none());
    assert!(MetadataExtractor::parse_exif_datetime("2024:05:01 24:30:00").is_none());
    assert!(MetadataExtractor::parse_exif_datetime("not a date at all!").is_none());
}

#[test]
fn photo_timestamp_roundtrips_through_local_calendar() {
    // Interpreting a wall-clock time and mapping the timestamp back to a
    // calendar day happen in the same local time zone, so the day must
    // survive the round trip whatever that zone is.
    let ts = MetadataExtractor::photo_timestamp("2024:05:01 10:30:00").unwrap();
    let d = CaptureDate::from_timestamp(ts);
    assert_eq!((d.year, d.month, d.day), (2024, 5, 1));
}

#[test]
fn photo_timestamp_rejects_unparseable_text() {
    assert!(MetadataExtractor::photo_timestamp("no capture date here").is_none());
}

#[test]
fn resolve_date_prefers_sources_in_order() {
    assert_eq!(MetadataExtractor::resolve_date(Some(1), Some(2), Some(3), 4), 1);
    assert_eq!(MetadataExtractor::resolve_date(None, Some(2), Some(3), 4), 2);
    assert_eq!(MetadataExtractor::resolve_date(None, None, Some(3), 4), 3);
    assert_eq!(MetadataExtractor::resolve_date(None, None, None, 4), 4);
}

#[test]
fn get_date_falls_back_without_usable_metadata() {
    let d = MetadataExtractor::get_date(&None, None, Some(1000), 2000);
    assert_eq!(d.secs, 1000);
    let d2 = MetadataExtractor::get_date(&Some("garbage".to_string()), None, None, 2000);
    assert_eq!(d2.secs, 2000);
}

#[test]
fn error_messages_name_their_category() {
    assert_eq!(AppError::Config("bad".to_string()).message(), "Configuration error: bad");
    assert_eq!(AppError::Io("gone".to_string()).message(), "File system error: gone");
    assert_eq!(AppError::Scan("dark".to_string()).message(), "Scanning error: dark");
    assert_eq!(AppError::Upload("full".to_string()).message(), "Upload error: full");
    assert_eq!(AppError::Analyze("odd".to_string()).message(), "Analysis error: odd");
    assert_eq!(AppError::Unknown("what".to_string()).message(), "Unknown error: what");
}

#[test]
fn config_defaults_are_empty() {
    let c = Config::default();
    assert_eq!(c.sd.source_dir, "");
    assert_eq!(c.sd.target_dir, "");
    assert!(!c.sd.overwrite_duplicates);
    assert_eq!(c.dji.source_dir, "");
    assert!(!c.dji.overwrite_duplicates);
    assert!(c.favorites.sd_sources.is_empty());
    assert!(c.favorites.dji_sources.is_empty());
    let m = ModeConfig::default();
    assert_eq!(m.target_dir, "");
    let f = Favorites::default();
    assert!(f.sd_targets.is_empty());
}

#[test]
fn config_manager_remembers_its_path() {
    let m = ConfigManager::new("/home/user/.config/mascopy/config.json".to_string());
    assert_eq!(m.config_path(), "/home/user/.config/mascopy/config.json");
}
