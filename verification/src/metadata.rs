//! Capture-date resolution. The authoritative capture instant of a file
//! comes from a fallback chain: embedded photo metadata first, then video
//! container metadata, then the filesystem modification time, then the
//! current time. Reading those raw sources touches the filesystem and so
//! happens outside this crate; this module verifies the chain itself and
//! the parsing of the embedded date text.

use vstd::prelude::*;
use crate::dates::CaptureDate;
use crate::dates::local_timestamp;
use crate::names::digit_val;
use crate::names::digit_value;
use crate::names::is_digit;

verus! {

/// A wall-clock date and time as written in photo metadata, before time
/// zone interpretation.
#[derive(Clone, Copy, PartialEq, Eq, Structural, Debug)]
pub struct ExifDateTime {
    pub year: u32,
    pub month: u32,
    pub day: u32,
    pub hour: u32,
    pub minute: u32,
    pub second: u32,
}

/// The separators accepted between date (and between time) components.
pub open spec fn exif_sep(c: char) -> bool {
    c == ':' || c == '-'
}

/// The accepted shape of an embedded date/time text: `YYYY?MM?DD?HH?MM?SS`
/// with `:` or `-` between components and a space or `T` in the middle.
pub open spec fn exif_shape(s: Seq<char>) -> bool {
    &&& s.len() == 19
    &&& is_digit(s[0]) && is_digit(s[1]) && is_digit(s[2]) && is_digit(s[3])
    &&& exif_sep(s[4])
    &&& is_digit(s[5]) && is_digit(s[6])
    &&& exif_sep(s[7])
    &&& is_digit(s[8]) && is_digit(s[9])
    &&& (s[10] == ' ' || s[10] == 'T')
    &&& is_digit(s[11]) && is_digit(s[12])
    &&& exif_sep(s[13])
    &&& is_digit(s[14]) && is_digit(s[15])
    &&& exif_sep(s[16])
    &&& is_digit(s[17]) && is_digit(s[18])
}

/// The value of the two digit characters at `i` and `i + 1`.
pub open spec fn two_digits(s: Seq<char>, i: int) -> nat {
    digit_val(s[i]) * 10 + digit_val(s[i + 1])
}

/// The value of the four digit characters starting at `i`.
pub open spec fn four_digits(s: Seq<char>, i: int) -> nat {
    two_digits(s, i) * 100 + two_digits(s, i + 2)
}

/// The component ranges a parsed date/time must satisfy (calendar-level
/// validity such as the month's length is left to the time zone lookup).
pub open spec fn exif_fields_ok(d: ExifDateTime) -> bool {
    &&& 1 <= d.month <= 12
    &&& 1 <= d.day <= 31
    &&& d.hour <= 23
    &&& d.minute <= 59
    &&& d.second <= 59
}

/// What [`MetadataExtractor::parse_exif_datetime`] returns: the component
/// values when the text has the accepted shape and in-range components,
/// `None` otherwise.
pub open spec fn parse_exif_spec(s: Seq<char>) -> Option<ExifDateTime> {
    if exif_shape(s) {
        let d = ExifDateTime {
            year: four_digits(s, 0) as u32,
            month: two_digits(s, 5) as u32,
            day: two_digits(s, 8) as u32,
            hour: two_digits(s, 11) as u32,
            minute: two_digits(s, 14) as u32,
            second: two_digits(s, 17) as u32,
        };
        if exif_fields_ok(d) {
            Some(d)
        } else {
            None
        }
    } else {
        None
    }
}

/// The fallback chain once photo metadata is out of the picture: video
/// container metadata, else modification time, else the current time.
pub open spec fn fallback_secs(video: Option<i64>, modified: Option<i64>, now: i64) -> i64 {
    match video {
        Some(v) => v,
        None => match modified {
            Some(m) => m,
            None => now,
        },
    }
}

/// Reads the two-digit value at positions `i`, `i + 1`.
fn two_at(s: &str, i: usize) -> (r: Option<u32>)
    requires
        i + 1 < s@.len(),
        s@.len() < usize::MAX,
    ensures
        r matches Some(v) ==> is_digit(s@[i as int]) && is_digit(s@[i + 1]) && v == two_digits(
            s@,
            i as int,
        ),
        r is None ==> !(is_digit(s@[i as int]) && is_digit(s@[i + 1])),
{
    let hi = digit_value(s.get_char(i));
    let lo = digit_value(s.get_char(i + 1));
    match (hi, lo) {
        (Some(h), Some(l)) => Some(h * 10 + l),
        _ => None,
    }
}

/// Whether the character at `i` is an accepted component separator.
fn sep_at(s: &str, i: usize) -> (r: bool)
    requires
        i < s@.len(),
    ensures
        r == exif_sep(s@[i as int]),
{
    let c = s.get_char(i);
    c == ':' || c == '-'
}

/// Reads and resolves capture dates; the raw metadata text and filesystem
/// times are handed in by the caller.
pub struct MetadataExtractor;

impl MetadataExtractor {
    /// Parses an embedded date/time text such as `2024:05:01 10:30:00`
    /// (`-` separators and a `T` divider are accepted as well).
    pub fn parse_exif_datetime(s: &str) -> (r: Option<ExifDateTime>)
        ensures
            r == parse_exif_spec(s@),
    {
        if s.unicode_len() != 19 {
            return None;
        }
        if !(sep_at(s, 4) && sep_at(s, 7) && sep_at(s, 13) && sep_at(s, 16)) {
            return None;
        }
        let mid = s.get_char(10);
        if !(mid == ' ' || mid == 'T') {
            return None;
        }
        let parts = (
            two_at(s, 0),
            two_at(s, 2),
            two_at(s, 5),
            two_at(s, 8),
            two_at(s, 11),
            two_at(s, 14),
            two_at(s, 17),
        );
        match parts {
            (Some(y_hi), Some(y_lo), Some(mo), Some(da), Some(ho), Some(mi), Some(se)) => {
                let d = ExifDateTime {
                    year: y_hi * 100 + y_lo,
                    month: mo,
                    day: da,
                    hour: ho,
                    minute: mi,
                    second: se,
                };
                if 1 <= d.month && d.month <= 12 && 1 <= d.day && d.day <= 31 && d.hour <= 23
                    && d.minute <= 59 && d.second <= 59 {
                    Some(d)
                } else {
                    None
                }
            },
            _ => None,
        }
    }

    /// The capture timestamp claimed by photo metadata, if the text
    /// parses and names a real local time.
    pub fn photo_timestamp(text: &str) -> (r: Option<i64>)
        ensures
            parse_exif_spec(text@) is None ==> r is None,
    {
        match Self::parse_exif_datetime(text) {
            Some(d) => local_timestamp(d.year as i32, d.month, d.day, d.hour, d.minute, d.second),
            None => None,
        }
    }

    /// The fallback chain in full: the first available source wins.
    pub fn resolve_date(
        photo: Option<i64>,
        video: Option<i64>,
        modified: Option<i64>,
        now: i64,
    ) -> (r: i64)
        ensures
            r == match photo {
                Some(p) => p,
                None => fallback_secs(video, modified, now),
            },
    {
        match photo {
            Some(p) => p,
            None => match video {
                Some(v) => v,
                None => match modified {
                    Some(m) => m,
                    None => now,
                },
            },
        }
    }

    /// Resolves a file's capture date from its metadata text and
    /// filesystem times. Total: some usable date always comes back.
    pub fn get_date(
        exif_text: &Option<String>,
        video_secs: Option<i64>,
        modified_secs: Option<i64>,
        now_secs: i64,
    ) -> (d: CaptureDate)
        ensures
            d.wf(),
            (match exif_text {
                Some(t) => parse_exif_spec(t@) is None,
                None => true,
            }) ==> d.secs == fallback_secs(video_secs, modified_secs, now_secs),
    {
        let photo = match exif_text {
            Some(t) => Self::photo_timestamp(t.as_str()),
            None => None,
        };
        let secs = Self::resolve_date(photo, video_secs, modified_secs, now_secs);
        CaptureDate::from_timestamp(secs)
    }
}

} // verus!
