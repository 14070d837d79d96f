//! Capture dates. A record's capture instant is kept as an absolute Unix
//! timestamp (which orders records) together with the local calendar day
//! (which names the destination date folder). The conversion between the
//! two goes through chrono and depends on the machine's time zone, so it
//! sits behind trusted wrappers; everything downstream works on the plain
//! fields of [`CaptureDate`].

use vstd::prelude::*;
use chrono::Datelike;
use chrono::TimeZone;
use crate::names::zero_padded;
use crate::names::padded_string;

verus! {

/// A resolved capture instant: `secs` is the Unix timestamp used for
/// ordering; `year`/`month`/`day` are the local calendar day used for
/// destination-folder bucketing.
#[derive(Clone, Copy, PartialEq, Eq, Structural, Debug)]
pub struct CaptureDate {
    pub secs: i64,
    pub year: i32,
    pub month: u32,
    pub day: u32,
}

/// Relies on chrono's `TimeZone::timestamp_opt` on `Local` plus the
/// `Datelike` accessors: maps a Unix timestamp to the machine-local
/// calendar day. chrono documents `month()` as 1..=12 and `day()` as
/// 1..=31; out-of-range timestamps yield `None`. The result depends on
/// the machine's time zone, so nothing more is stated.
#[verifier::external_body]
fn local_calendar_day(secs: i64) -> (r: Option<(i32, u32, u32)>)
    ensures
        r matches Some(p) ==> 1 <= p.1 <= 12 && 1 <= p.2 <= 31,
{
    chrono::Local.timestamp_opt(secs, 0).single().map(|dt| (dt.year(), dt.month(), dt.day()))
}

/// Relies on chrono's `TimeZone::with_ymd_and_hms` on `Local` and
/// `DateTime::timestamp`: interprets a wall-clock time in the machine's
/// time zone and yields its Unix timestamp, or `None` when the input is
/// no valid calendar time or is skipped/ambiguous in that zone. The
/// result depends on the machine's time zone, so nothing is stated of it.
#[verifier::external_body]
pub(crate) fn local_timestamp(
    year: i32,
    month: u32,
    day: u32,
    hour: u32,
    minute: u32,
    second: u32,
) -> (r: Option<i64>) {
    chrono::Local
        .with_ymd_and_hms(year, month, day, hour, minute, second)
        .single()
        .map(|dt| dt.timestamp())
}

/// The `YYYY-MM-DD` rendering of a capture date's calendar day: the year
/// zero-padded to four digits (negative years keep a leading minus), the
/// month and day to two.
pub open spec fn folder_chars(d: CaptureDate) -> Seq<char> {
    let ymd = if d.year >= 0 {
        zero_padded(d.year as nat, 4)
    } else {
        seq!['-'] + zero_padded((-(d.year as int)) as nat, 4)
    };
    ymd + seq!['-'] + zero_padded(d.month as nat, 2) + seq!['-'] + zero_padded(d.day as nat, 2)
}

/// Law: date folder names distinguish calendar days. Two capture dates
/// with well-formed calendar fields that render to the same `YYYY-MM-DD`
/// folder name are the same day, so records taken on different days can
/// never land in one folder.
pub proof fn lemma_folder_chars_injective(a: CaptureDate, b: CaptureDate)
    requires
        a.wf(),
        b.wf(),
        folder_chars(a) == folder_chars(b),
    ensures
        a.year == b.year,
        a.month == b.month,
        a.day == b.day,
{
    let fa = folder_chars(a);
    let fb = folder_chars(b);
    let ya = year_part(a.year as int);
    let yb = year_part(b.year as int);
    let ma = zero_padded(a.month as nat, 2);
    let mb = zero_padded(b.month as nat, 2);
    let da = zero_padded(a.day as nat, 2);
    let db = zero_padded(b.day as nat, 2);
    lemma_year_part_shape(a.year as int);
    lemma_year_part_shape(b.year as int);
    crate::names::lemma_dec_len_le2(a.month as nat);
    crate::names::lemma_dec_len_le2(b.month as nat);
    crate::names::lemma_dec_len_le2(a.day as nat);
    crate::names::lemma_dec_len_le2(b.day as nat);
    crate::names::lemma_zero_padded_len(a.month as nat, 2);
    crate::names::lemma_zero_padded_len(b.month as nat, 2);
    crate::names::lemma_zero_padded_len(a.day as nat, 2);
    crate::names::lemma_zero_padded_len(b.day as nat, 2);
    assert(fa =~= ya + seq!['-'] + ma + seq!['-'] + da);
    assert(fb =~= yb + seq!['-'] + mb + seq!['-'] + db);
    assert(fa.len() == ya.len() + 6 && fb.len() == yb.len() + 6);
    assert(ya.len() == yb.len());
    let w = ya.len() as int;
    assert(ma =~= fa.subrange(w + 1, w + 3));
    assert(mb =~= fb.subrange(w + 1, w + 3));
    assert(da =~= fa.subrange(w + 4, w + 6));
    assert(db =~= fb.subrange(w + 4, w + 6));
    assert(ya =~= fa.subrange(0, w));
    assert(yb =~= fb.subrange(0, w));
    crate::names::lemma_zero_padded_val(a.month as nat, 2);
    crate::names::lemma_zero_padded_val(b.month as nat, 2);
    crate::names::lemma_zero_padded_val(a.day as nat, 2);
    crate::names::lemma_zero_padded_val(b.day as nat, 2);
    assert(a.month == b.month);
    assert(a.day == b.day);
    if a.year >= 0 && b.year >= 0 {
        crate::names::lemma_zero_padded_val(a.year as nat, 4);
        crate::names::lemma_zero_padded_val(b.year as nat, 4);
    } else if a.year < 0 && b.year < 0 {
        let pa = zero_padded((-(a.year as int)) as nat, 4);
        let pb = zero_padded((-(b.year as int)) as nat, 4);
        assert(pa =~= ya.subrange(1, w));
        assert(pb =~= yb.subrange(1, w));
        crate::names::lemma_zero_padded_val((-(a.year as int)) as nat, 4);
        crate::names::lemma_zero_padded_val((-(b.year as int)) as nat, 4);
    } else {
        assert(false);
    }
}

/// The year component of a folder name.
pub open spec fn year_part(year: int) -> Seq<char> {
    if year >= 0 {
        zero_padded(year as nat, 4)
    } else {
        seq!['-'] + zero_padded((-year) as nat, 4)
    }
}

/// The year part is nonempty; it starts with a digit exactly when the
/// year is not negative.
proof fn lemma_year_part_shape(year: int)
    ensures
        year_part(year).len() >= 1,
        year >= 0 ==> crate::names::is_digit(year_part(year)[0]),
        year < 0 ==> year_part(year)[0] == '-',
{
    if year >= 0 {
        crate::names::lemma_zero_padded_first_is_digit(year as nat, 4);
        crate::names::lemma_dec_first_is_digit(year as nat);
        if crate::names::dec_digits(year as nat).len() < 4 {
            crate::names::lemma_zeros_len((4 - crate::names::dec_digits(year as nat).len()) as nat);
        }
    }
}

impl CaptureDate {
    /// The calendar-day fields hold a plausible day.
    pub open spec fn wf(self) -> bool {
        1 <= self.month <= 12 && 1 <= self.day <= 31
    }

    /// Builds the capture date for a Unix timestamp, bucketing it on the
    /// machine-local calendar day; timestamps outside the representable
    /// calendar fall back to the epoch's day.
    pub fn from_timestamp(secs: i64) -> (d: CaptureDate)
        ensures
            d.secs == secs,
            d.wf(),
    {
        match local_calendar_day(secs) {
            Some((y, m, dd)) => CaptureDate { secs, year: y, month: m, day: dd },
            None => CaptureDate { secs, year: 1970, month: 1, day: 1 },
        }
    }

    /// Renders the destination date folder name, `YYYY-MM-DD`.
    pub fn folder_name(&self) -> (r: String)
        ensures
            r@ == folder_chars(*self),
    {
        proof {
            reveal_strlit("-");
        }
        let mut r = if self.year >= 0 {
            padded_string(self.year as u64, 4)
        } else {
            let mag = -(self.year as i64);
            let mut neg = String::from_str("-");
            neg.append(padded_string(mag as u64, 4).as_str());
            neg
        };
        r.append("-");
        r.append(padded_string(self.month as u64, 2).as_str());
        r.append("-");
        r.append(padded_string(self.day as u64, 2).as_str());
        proof {
            assert(r@ =~= folder_chars(*self));
        }
        r
    }
}

} // verus!
