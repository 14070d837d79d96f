//! The transfer state machine and its control flags.

use mascopy::dates::CaptureDate;
use mascopy::scanner::Disposition;
use mascopy::scanner::MediaFile;
use mascopy::scanner::MediaKind;
use mascopy::uploader::progress_event;
use mascopy::uploader::TransferRun;
use mascopy::uploader::TransferStep;
use mascopy::uploader::Uploader;

fn batch(dispositions: &[Disposition]) -> Vec<MediaFile> {
    dispositions
        .iter()
        .enumerate()
        .map(|(i, d)| MediaFile {
            path: format!("/sd/f{i}"),
            filename: format!("f{i}.jpg"),
            size: 10,
            date: CaptureDate { secs: 0, year: 2024, month: 1, day: 1 },
            file_type: MediaKind::Photo,
            status: *d,
            target_path: format!("/t/2024-01-01/f{i}.jpg"),
        })
        .collect()
}

#[test]
fn flags_start_clear_and_respond_to_commands() {
    let mut u = Uploader::new();
    assert!(!u.is_paused);
    assert!(!u.should_cancel);
    u.pause();
    assert!(u.is_paused);
    u.pause();
    assert!(u.is_paused);
    u.resume();
    assert!(!u.is_paused);
    u.cancel();
    assert!(u.should_cancel);
    u.reset();
    assert!(!u.is_paused);
    assert!(!u.should_cancel);
}

#[test]
fn run_copies_uploads_and_overwrites_and_skips_the_rest() {
    let files = batch(&[Disposition::Upload, Disposition::Skip, Disposition::Overwrite]);
    let mut run = TransferRun::new(3);
    assert_eq!(run.step(&files, false, false), TransferStep::CopyFile { index: 0 });
    assert_eq!(run.step(&files, false, false), TransferStep::SkipFile { index: 1 });
    assert_eq!(run.step(&files, false, false), TransferStep::CopyFile { index: 2 });
    assert_eq!(run.step(&files, false, false), TransferStep::Done { cancelled: false });
    // A finished run stays finished.
    assert_eq!(run.step(&files, false, false), TransferStep::Done { cancelled: false });
}

#[test]
fn paused_run_waits_without_moving() {
    let files = batch(&[Disposition::Upload, Disposition::Upload]);
    let mut run = TransferRun::new(2);
    assert_eq!(run.step(&files, true, false), TransferStep::Wait);
    assert_eq!(run.step(&files, true, false), TransferStep::Wait);
    // Resumed: the first file is still the next one.
    assert_eq!(run.step(&files, false, false), TransferStep::CopyFile { index: 0 });
}

#[test]
fn cancel_mid_run_leaves_remaining_files_uncopied() {
    let files = batch(&[
        Disposition::Upload,
        Disposition::Upload,
        Disposition::Upload,
        Disposition::Upload,
    ]);
    let mut run = TransferRun::new(4);
    assert_eq!(run.step(&files, false, false), TransferStep::CopyFile { index: 0 });
    assert_eq!(run.step(&files, false, false), TransferStep::CopyFile { index: 1 });
    // Cancellation observed at the next boundary: the stop is observable
    // and no later step copies anything, whatever the flags say.
    assert_eq!(run.step(&files, false, true), TransferStep::Done { cancelled: true });
    assert_eq!(run.step(&files, false, false), TransferStep::Done { cancelled: true });
    assert_eq!(run.step(&files, true, false), TransferStep::Done { cancelled: true });
}

#[test]
fn cancel_beats_pause_at_a_boundary() {
    let files = batch(&[Disposition::Upload]);
    let mut run = TransferRun::new(1);
    assert_eq!(run.step(&files, true, true), TransferStep::Done { cancelled: true });
}

#[test]
fn empty_batch_completes_immediately() {
    let files = batch(&[]);
    let mut run = TransferRun::new(0);
    assert_eq!(run.step(&files, false, false), TransferStep::Done { cancelled: false });
}

#[test]
fn progress_events_are_one_based() {
    let files = batch(&[Disposition::Upload, Disposition::Skip]);
    let e = progress_event(&files[0], 0, 2, true);
    assert_eq!(e.current, 1);
    assert_eq!(e.total, 2);
    assert_eq!(e.filename, "f0.jpg");
    assert!(e.copying);
    let s = progress_event(&files[1], 1, 2, false);
    assert_eq!(s.current, 2);
    assert!(!s.copying);
}
