//! Discovery. Walking the source tree and reading raw metadata happen
//! outside this crate; each directory entry arrives here as a plain
//! [`ScanEntry`]. This module decides, for the active mode, which entries
//! become media records, classifies them as photo or video, and resolves
//! their capture dates.

use vstd::prelude::*;
use crate::dates::CaptureDate;
use crate::metadata::MetadataExtractor;
use crate::metadata::fallback_secs;
use crate::metadata::parse_exif_spec;
use crate::names::ci_contains;
use crate::names::ci_eq;
use crate::names::ext_chars;
use crate::names::find_last_dot;
use crate::names::str_contains_ci;
use crate::names::str_eq;
use crate::names::str_eq_ci;

verus! {

/// Whether a record holds a photo or a video.
#[derive(Clone, Copy, PartialEq, Eq, Structural, Debug)]
pub enum MediaKind {
    Photo,
    Video,
}

/// The action the collision resolver assigns to a record. Records are
/// created `Pending` and set exactly once; the transfer stage only reads
/// the value.
#[derive(Clone, Copy, PartialEq, Eq, Structural, Debug)]
pub enum Disposition {
    Pending,
    Upload,
    Overwrite,
    Skip,
}

/// One discovered media file, as the pipeline carries it from discovery
/// through analysis to transfer.
#[derive(Clone, Debug)]
pub struct MediaFile {
    /// Absolute location of the original file.
    pub path: String,
    /// Base name component of `path`.
    pub filename: String,
    /// Byte length at scan time.
    pub size: u64,
    /// Resolved capture instant; used for folder bucketing and ordering.
    pub date: CaptureDate,
    /// Photo or video, from the extension at discovery time.
    pub file_type: MediaKind,
    /// Set exactly once by the collision resolver.
    pub status: Disposition,
    /// Empty until the collision resolver assigns the destination.
    pub target_path: String,
}

/// The mathematical shadow of a [`MediaFile`].
#[verifier::ext_equal]
pub ghost struct MediaFileView {
    pub path: Seq<char>,
    pub filename: Seq<char>,
    pub size: u64,
    pub date: CaptureDate,
    pub file_type: MediaKind,
    pub status: Disposition,
    pub target_path: Seq<char>,
}

impl View for MediaFile {
    type V = MediaFileView;

    open spec fn view(&self) -> MediaFileView {
        MediaFileView {
            path: self.path@,
            filename: self.filename@,
            size: self.size,
            date: self.date,
            file_type: self.file_type,
            status: self.status,
            target_path: self.target_path@,
        }
    }
}

/// The views of a sequence of records.
pub open spec fn record_views(s: Seq<MediaFile>) -> Seq<MediaFileView> {
    s.map_values(|r: MediaFile| r@)
}

/// One directory entry of the source tree, as handed in by the walker:
/// identity and filesystem facts, plus whatever raw capture metadata the
/// caller could read for it.
#[derive(Clone, Debug)]
pub struct ScanEntry {
    /// Absolute path of the entry.
    pub path: String,
    /// Base name component of `path`.
    pub filename: String,
    /// Whether the entry is a regular file.
    pub is_file: bool,
    /// Names of the ancestor directories below the source root.
    pub dir_names: Vec<String>,
    /// Byte length.
    pub size: u64,
    /// Filesystem modification time, seconds since the epoch.
    pub modified_secs: Option<i64>,
    /// Raw embedded photo date/time text, if the file carries one.
    pub exif_datetime: Option<String>,
    /// Creation time from video container metadata, if any.
    pub video_created_secs: Option<i64>,
}

/// The mathematical shadow of a [`ScanEntry`].
#[verifier::ext_equal]
pub ghost struct ScanEntryView {
    pub path: Seq<char>,
    pub filename: Seq<char>,
    pub is_file: bool,
    pub dir_names: Seq<Seq<char>>,
    pub size: u64,
    pub modified_secs: Option<i64>,
    pub exif_datetime: Option<Seq<char>>,
    pub video_created_secs: Option<i64>,
}

impl View for ScanEntry {
    type V = ScanEntryView;

    open spec fn view(&self) -> ScanEntryView {
        ScanEntryView {
            path: self.path@,
            filename: self.filename@,
            is_file: self.is_file,
            dir_names: self.dir_names@.map_values(|s: String| s@),
            size: self.size,
            modified_secs: self.modified_secs,
            exif_datetime: match self.exif_datetime {
                Some(t) => Some(t@),
                None => None,
            },
            video_created_secs: self.video_created_secs,
        }
    }
}

/// The views of a sequence of entries.
pub open spec fn entry_views(s: Seq<ScanEntry>) -> Seq<ScanEntryView> {
    s.map_values(|e: ScanEntry| e@)
}

/// Hidden entries: names starting with a dot (which also covers the
/// `._` resource-fork shadow prefix).
pub open spec fn hidden_name(name: Seq<char>) -> bool {
    name.len() > 0 && name[0] == '.'
}

/// Thumbnail-cache directories: an exact (case-insensitive) match on the
/// two short cache tokens, or any name containing `thumbnail`.
pub open spec fn thumbnail_dir(dir: Seq<char>) -> bool {
    ci_eq(dir, "thm"@) || ci_eq(dir, "thmbnl"@) || ci_contains(dir, "thumbnail"@)
}

/// No directory on the entry's path marks a thumbnail cache.
pub open spec fn no_thumbnail_dirs(dirs: Seq<Seq<char>>) -> bool {
    forall|i: int| 0 <= i < dirs.len() ==> !thumbnail_dir(#[trigger] dirs[i])
}

/// The name's extension matches one of `exts`, ignoring ASCII case.
pub open spec fn ext_in(name: Seq<char>, exts: Seq<Seq<char>>) -> bool {
    exists|j: int| 0 <= j < exts.len() && ci_eq(ext_chars(name), #[trigger] exts[j])
}

/// Whether discovery keeps an entry: a regular, non-hidden file outside
/// any thumbnail-cache directory (when exclusion is requested), with a
/// supported extension.
pub open spec fn entry_included(
    e: ScanEntryView,
    photo: Seq<Seq<char>>,
    video: Seq<Seq<char>>,
    exclude_thumbnails: bool,
) -> bool {
    &&& e.is_file
    &&& !hidden_name(e.filename)
    &&& (exclude_thumbnails ==> no_thumbnail_dirs(e.dir_names))
    &&& (ext_in(e.filename, photo) || ext_in(e.filename, video))
}

/// The subsequence of entries discovery keeps, in order.
pub open spec fn kept_entries(
    s: Seq<ScanEntryView>,
    photo: Seq<Seq<char>>,
    video: Seq<Seq<char>>,
    exclude_thumbnails: bool,
) -> Seq<ScanEntryView>
    decreases s.len(),
{
    if s.len() == 0 {
        Seq::empty()
    } else {
        kept_entries(s.drop_last(), photo, video, exclude_thumbnails) + (
        if entry_included(s.last(), photo, video, exclude_thumbnails) {
            seq![s.last()]
        } else {
            Seq::empty()
        })
    }
}

/// Whether the exif text of an entry is absent or does not parse, so the
/// capture date is pinned by the fallback chain alone.
pub open spec fn exif_unusable(e: ScanEntryView) -> bool {
    match e.exif_datetime {
        Some(t) => parse_exif_spec(t) is None,
        None => true,
    }
}

/// How a produced record relates to the entry it came from.
pub open spec fn record_built(
    r: MediaFileView,
    e: ScanEntryView,
    photo: Seq<Seq<char>>,
    fast_mode: bool,
    now_secs: i64,
) -> bool {
    &&& r.path == e.path
    &&& r.filename == e.filename
    &&& r.size == e.size
    &&& r.file_type == (if ext_in(e.filename, photo) {
        MediaKind::Photo
    } else {
        MediaKind::Video
    })
    &&& r.status == Disposition::Pending
    &&& r.target_path == Seq::<char>::empty()
    &&& r.date.wf()
    &&& (fast_mode ==> r.date.secs == fallback_secs(None, e.modified_secs, now_secs))
    &&& (!fast_mode && exif_unusable(e) ==> r.date.secs == fallback_secs(
        e.video_created_secs,
        e.modified_secs,
        now_secs,
    ))
}

/// Discovery: holds the supported extension sets of the active mode.
pub struct Scanner {
    photo_exts: Vec<String>,
    video_exts: Vec<String>,
}

impl Scanner {
    /// The photo extensions of the active mode, lower case.
    pub closed spec fn photo_view(&self) -> Seq<Seq<char>> {
        self.photo_exts@.map_values(|s: String| s@)
    }

    /// The video extensions of the active mode, lower case.
    pub closed spec fn video_view(&self) -> Seq<Seq<char>> {
        self.video_exts@.map_values(|s: String| s@)
    }

    /// Builds the scanner for a mode: `dji` restricts the sets to the
    /// drone formats, every other mode gets the broad consumer sets.
    pub fn with_mode(mode: &str) -> (s: Scanner)
        ensures
            mode@ == "dji"@ ==> s.photo_view() == seq!["jpg"@, "jpeg"@, "lrf"@] && s.video_view()
                == seq!["osv"@, "mp4"@, "mov"@],
            mode@ != "dji"@ ==> s.photo_view() == seq![
                "jpg"@,
                "jpeg"@,
                "png"@,
                "heic"@,
                "nef"@,
                "cr2"@,
                "arw"@,
                "dng"@,
                "cr3"@,
            ] && s.video_view() == seq!["mp4"@, "mov"@, "avi"@, "m4v"@, "3gp"@, "mkv"@],
    {
        let mut photo: Vec<String> = Vec::new();
        let mut video: Vec<String> = Vec::new();
        if str_eq(mode, "dji") {
            photo.push(String::from_str("jpg"));
            photo.push(String::from_str("jpeg"));
            photo.push(String::from_str("lrf"));
            video.push(String::from_str("osv"));
            video.push(String::from_str("mp4"));
            video.push(String::from_str("mov"));
            let s = Scanner { photo_exts: photo, video_exts: video };
            proof {
                assert(s.photo_view() =~= seq!["jpg"@, "jpeg"@, "lrf"@]);
                assert(s.video_view() =~= seq!["osv"@, "mp4"@, "mov"@]);
            }
            s
        } else {
            photo.push(String::from_str("jpg"));
            photo.push(String::from_str("jpeg"));
            photo.push(String::from_str("png"));
            photo.push(String::from_str("heic"));
            photo.push(String::from_str("nef"));
            photo.push(String::from_str("cr2"));
            photo.push(String::from_str("arw"));
            photo.push(String::from_str("dng"));
            photo.push(String::from_str("cr3"));
            video.push(String::from_str("mp4"));
            video.push(String::from_str("mov"));
            video.push(String::from_str("avi"));
            video.push(String::from_str("m4v"));
            video.push(String::from_str("3gp"));
            video.push(String::from_str("mkv"));
            let s = Scanner { photo_exts: photo, video_exts: video };
            proof {
                assert(s.photo_view() =~= seq![
                    "jpg"@,
                    "jpeg"@,
                    "png"@,
                    "heic"@,
                    "nef"@,
                    "cr2"@,
                    "arw"@,
                    "dng"@,
                    "cr3"@,
                ]);
                assert(s.video_view() =~= seq!["mp4"@, "mov"@, "avi"@, "m4v"@, "3gp"@, "mkv"@]);
            }
            s
        }
    }

    /// Whether the extension of `name` is in `exts`, ignoring case.
    fn ext_matches_set(name: &str, exts: &Vec<String>) -> (r: bool)
        ensures
            r == ext_in(name@, exts@.map_values(|s: String| s@)),
    {
        let ext: &str = match find_last_dot(name) {
            Some(d) => {
                proof {
                    crate::names::lemma_last_dot_in_range(name@);
                }
                let n = name.unicode_len();
                name.substring_char(d + 1, n)
            },
            None => {
                proof {
                    reveal_strlit("");
                    assert(""@ =~= ext_chars(name@));
                }
                ""
            },
        };
        proof {
            assert(ext@ == ext_chars(name@));
        }
        let ghost exts_view = exts@.map_values(|s: String| s@);
        let mut j: usize = 0;
        while j < exts.len()
            invariant
                exts_view == exts@.map_values(|s: String| s@),
                j <= exts@.len(),
                ext@ == ext_chars(name@),
                forall|p: int| 0 <= p < j ==> !ci_eq(ext_chars(name@), #[trigger] exts_view[p]),
            decreases exts@.len() - j,
        {
            if str_eq_ci(ext, exts[j].as_str()) {
                proof {
                    assert(exts_view[j as int] == exts@[j as int]@);
                }
                return true;
            }
            j = j + 1;
        }
        false
    }

    /// Whether a directory name marks a thumbnail cache.
    fn is_thumbnail_dir(dir: &str) -> (r: bool)
        ensures
            r == thumbnail_dir(dir@),
    {
        str_eq_ci(dir, "thm") || str_eq_ci(dir, "thmbnl") || str_contains_ci(dir, "thumbnail")
    }

    /// Whether discovery keeps `e`.
    fn includes(&self, e: &ScanEntry, exclude_thumbnails: bool) -> (r: bool)
        ensures
            r == entry_included(e@, self.photo_view(), self.video_view(), exclude_thumbnails),
    {
        if !e.is_file {
            return false;
        }
        if e.filename.as_str().unicode_len() > 0 && e.filename.as_str().get_char(0) == '.' {
            return false;
        }
        if exclude_thumbnails {
            let ghost dirs = e@.dir_names;
            let mut i: usize = 0;
            while i < e.dir_names.len()
                invariant
                    exclude_thumbnails,
                    dirs == e@.dir_names,
                    e.dir_names@.len() == dirs.len(),
                    i <= dirs.len(),
                    forall|p: int| 0 <= p < i ==> !thumbnail_dir(#[trigger] dirs[p]),
                decreases e.dir_names@.len() - i,
            {
                if Self::is_thumbnail_dir(e.dir_names[i].as_str()) {
                    proof {
                        assert(e@.dir_names.len() == e.dir_names@.len());
                        assert(e@.dir_names[i as int] == e.dir_names@[i as int]@);
                        assert(thumbnail_dir(e@.dir_names[i as int]));
                        assert(!no_thumbnail_dirs(e@.dir_names)) by {
                            assert((i as int) < e@.dir_names.len() && thumbnail_dir(
                                e@.dir_names[i as int],
                            ));
                        }
                        assert(!entry_included(
                            e@,
                            self.photo_view(),
                            self.video_view(),
                            exclude_thumbnails,
                        ));
                    }
                    return false;
                }
                i = i + 1;
            }
        }
        Self::ext_matches_set(e.filename.as_str(), &self.photo_exts) || Self::ext_matches_set(
            e.filename.as_str(),
            &self.video_exts,
        )
    }

    /// Discovery proper: builds the initial record set from the walked
    /// entries. In fast mode the capture date comes straight from the
    /// modification time; otherwise the metadata fallback chain runs.
    pub fn scan(
        &self,
        entries: &Vec<ScanEntry>,
        fast_mode: bool,
        exclude_thumbnails: bool,
        now_secs: i64,
    ) -> (files: Vec<MediaFile>)
        ensures
            ({
                let ks = kept_entries(
                    entry_views(entries@),
                    self.photo_view(),
                    self.video_view(),
                    exclude_thumbnails,
                );
                &&& files@.len() == ks.len()
                &&& forall|i: int|
                    0 <= i < ks.len() ==> record_built(
                        #[trigger] files@[i]@,
                        ks[i],
                        self.photo_view(),
                        fast_mode,
                        now_secs,
                    )
            }),
    {
        let ghost all = entry_views(entries@);
        let mut files: Vec<MediaFile> = Vec::new();
        let mut idx: usize = 0;
        proof {
            assert(all.take(0).len() == 0);
        }
        while idx < entries.len()
            invariant
                all == entry_views(entries@),
                idx <= entries@.len(),
                ({
                    let ks = kept_entries(
                        all.take(idx as int),
                        self.photo_view(),
                        self.video_view(),
                        exclude_thumbnails,
                    );
                    &&& files@.len() == ks.len()
                    &&& forall|i: int|
                        0 <= i < ks.len() ==> record_built(
                            #[trigger] files@[i]@,
                            ks[i],
                            self.photo_view(),
                            fast_mode,
                            now_secs,
                        )
                }),
            decreases entries@.len() - idx,
        {
            let e = &entries[idx];
            proof {
                assert(all.take(idx + 1).drop_last() =~= all.take(idx as int));
                assert(all.take(idx + 1).last() == e@);
            }
            if self.includes(e, exclude_thumbnails) {
                let date = if fast_mode {
                    let m = match e.modified_secs {
                        Some(m) => m,
                        None => now_secs,
                    };
                    CaptureDate::from_timestamp(m)
                } else {
                    MetadataExtractor::get_date(
                        &e.exif_datetime,
                        e.video_created_secs,
                        e.modified_secs,
                        now_secs,
                    )
                };
                let kind = if Self::ext_matches_set(e.filename.as_str(), &self.photo_exts) {
                    MediaKind::Photo
                } else {
                    MediaKind::Video
                };
                let record = MediaFile {
                    path: e.path.clone(),
                    filename: e.filename.clone(),
                    size: e.size,
                    date,
                    file_type: kind,
                    status: Disposition::Pending,
                    target_path: String::new(),
                };
                proof {
                    assert(record_built(record@, e@, self.photo_view(), fast_mode, now_secs));
                }
                files.push(record);
            }
            idx = idx + 1;
        }
        proof {
            assert(all.take(entries@.len() as int) =~= all);
        }
        files
    }
}

} // verus!
