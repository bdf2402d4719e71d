use vstd::prelude::*;
use chrono::{Datelike, Timelike};

verus! {

/// A UTC calendar date and time of day: year, month, day, hour, minute and
/// second.
pub type Civil = (i32, u32, u32, u32, u32, u32);

/// The UTC calendar date and time of a Unix time, in chrono's proleptic
/// Gregorian calendar; `None` where chrono cannot represent it.
pub uninterp spec fn utc_civil_of(secs: int) -> Option<Civil>;

/// The Unix time of a UTC calendar date and time, in chrono's proleptic
/// Gregorian calendar; `None` where the date or the time does not exist.
pub uninterp spec fn utc_seconds_of(civil: Civil) -> Option<int>;

pub open spec fn civil_in_range(c: Civil) -> bool {
    &&& 1 <= c.1 <= 12
    &&& 1 <= c.2 <= 31
    &&& c.3 < 24
    &&& c.4 < 60
    &&& c.5 < 60
}

/// Relies on chrono's `DateTime::from_timestamp` (whole seconds) and the
/// `year`, `month`, `day`, `hour`, `minute` and `second` accessors: months
/// count from 1, days from 1, and with no fraction of a second there is no
/// leap second.
#[verifier::external_body]
fn utc_civil(secs: i64) -> (r: Option<Civil>)
    ensures
        r == utc_civil_of(secs as int),
        r matches Some(c) ==> civil_in_range(c),
{
    chrono::DateTime::from_timestamp(secs, 0).map(
        |d| (d.year(), d.month(), d.day(), d.hour(), d.minute(), d.second()),
    )
}

/// Relies on chrono's `NaiveDate::from_ymd_opt`, `NaiveDate::and_hms_opt`
/// and `timestamp` of the UTC reading of the result.
#[verifier::external_body]
pub(crate) fn utc_seconds(c: Civil) -> (r: Option<i64>)
    ensures
        r matches Some(s) ==> utc_seconds_of(c) == Some(s as int),
        r is None ==> utc_seconds_of(c) is None,
{
    chrono::NaiveDate::from_ymd_opt(c.0, c.1, c.2).and_then(|d| d.and_hms_opt(c.3, c.4, c.5)).map(
        |t| t.and_utc().timestamp(),
    )
}

/// Relies on chrono's `Utc::now`: the current Unix time, whatever the clock
/// says.
#[verifier::external_body]
fn unix_now() -> (r: i64) {
    chrono::Utc::now().timestamp()
}

/// `width` decimal digits of `v`, most significant first.
pub open spec fn digits(v: int, width: nat) -> Seq<u8>
    decreases width,
{
    if width == 0 {
        seq![]
    } else {
        digits(v / 10, (width - 1) as nat).push((48 + v % 10) as u8)
    }
}

/// The EXIF date-time text `YYYY:MM:DD HH:MM:SS`.
pub open spec fn datetime_text(c: Civil) -> Seq<u8> {
    digits(c.0 as int, 4) + seq![58u8] + digits(c.1 as int, 2) + seq![58u8] + digits(c.2 as int, 2)
        + seq![32u8] + digits(c.3 as int, 2) + seq![58u8] + digits(c.4 as int, 2) + seq![58u8]
        + digits(c.5 as int, 2)
}

/// A calendar time that the four-digit year of the text can hold.
pub open spec fn civil_writable(c: Civil) -> bool {
    0 <= c.0 <= 9999 && civil_in_range(c)
}

/// The date-time text of a Unix time, where it has one.
pub open spec fn timestamp_text(secs: int) -> Option<Seq<u8>> {
    match utc_civil_of(secs) {
        Some(c) => if civil_writable(c) {
            Some(datetime_text(c))
        } else {
            None
        },
        None => None,
    }
}

/// What a date-time text written for `secs` may be: its text where it has
/// one, and some well-formed text otherwise.
pub open spec fn text_for_timestamp(secs: int, t: Seq<u8>) -> bool {
    &&& t.len() == 19
    &&& (timestamp_text(secs) matches Some(x) ==> t == x)
}

proof fn lemma_digits_len(v: int, width: nat)
    ensures
        digits(v, width).len() == width,
    decreases width,
{
    if width > 0 {
        lemma_digits_len(v / 10, (width - 1) as nat);
    }
}

fn push_digits(out: &mut Vec<u8>, v: u32, width: u32)
    ensures
        final(out)@ == old(out)@ + digits(v as int, width as nat),
    decreases width,
{
    if width > 0 {
        push_digits(out, v / 10, width - 1);
        out.push((48 + v % 10) as u8);
        assert(final(out)@ =~= old(out)@ + digits(v as int, width as nat));
    }
}

fn write_datetime(c: Civil) -> (r: Vec<u8>)
    requires
        civil_writable(c),
    ensures
        r@ == datetime_text(c),
        r@.len() == 19,
{
    let mut out: Vec<u8> = Vec::new();
    push_digits(&mut out, c.0 as u32, 4);
    out.push(58u8);
    push_digits(&mut out, c.1, 2);
    out.push(58u8);
    push_digits(&mut out, c.2, 2);
    out.push(32u8);
    push_digits(&mut out, c.3, 2);
    out.push(58u8);
    push_digits(&mut out, c.4, 2);
    out.push(58u8);
    push_digits(&mut out, c.5, 2);
    proof {
        lemma_digits_len(c.0 as int, 4);
        lemma_digits_len(c.1 as int, 2);
        lemma_digits_len(c.2 as int, 2);
        lemma_digits_len(c.3 as int, 2);
        lemma_digits_len(c.4 as int, 2);
        lemma_digits_len(c.5 as int, 2);
    }
    assert(out@ =~= datetime_text(c));
    out
}

/// The date-time text of a Unix time, where it has one.
pub fn format_timestamp(secs: i64) -> (r: Option<Vec<u8>>)
    ensures
        r matches Some(t) ==> timestamp_text(secs as int) == Some(t@),
        r is None ==> timestamp_text(secs as int) is None,
{
    match utc_civil(secs) {
        Some(c) => {
            if 0 <= c.0 && c.0 <= 9999 {
                Some(write_datetime(c))
            } else {
                None
            }
        },
        None => None,
    }
}

/// The date-time text written for a capture time. A time that has no text
/// (before year 0 or after 9999) is replaced by the current time, and, should
/// that have none either, by the Unix epoch.
pub fn exif_datetime_for(secs: i64) -> (r: Vec<u8>)
    ensures
        text_for_timestamp(secs as int, r@),
{
    match format_timestamp(secs) {
        Some(t) => {
            proof {
                let c = utc_civil_of(secs as int)->Some_0;
                lemma_datetime_len(c);
            }
            t
        },
        None => {
            let now = unix_now();
            match format_timestamp(now) {
                Some(t) => {
                    proof {
                        lemma_datetime_len(utc_civil_of(now as int)->Some_0);
                    }
                    t
                },
                None => write_datetime((1970, 1, 1, 0, 0, 0)),
            }
        },
    }
}

proof fn lemma_datetime_len(c: Civil)
    ensures
        datetime_text(c).len() == 19,
{
    lemma_digits_len(c.0 as int, 4);
    lemma_digits_len(c.1 as int, 2);
    lemma_digits_len(c.2 as int, 2);
    lemma_digits_len(c.3 as int, 2);
    lemma_digits_len(c.4 as int, 2);
    lemma_digits_len(c.5 as int, 2);
}

} // verus!
