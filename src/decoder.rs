use vstd::prelude::*;
use crate::datetime::{utc_seconds, utc_seconds_of, Civil};
use crate::encoder::{
    DATE_TIME, GPS_ALTITUDE, GPS_IMG_DIRECTION, GPS_LATITUDE, GPS_LATITUDE_REF, GPS_LONGITUDE,
    GPS_LONGITUDE_REF, ORIENTATION, USER_COMMENT,
};
use crate::error::ExifError;
use crate::jpeg::{exif_payload_of, read_exif_payload};
use crate::metadata::PhotoMetadata;
use crate::provenance::{provenance_of_comment, read_provenance_comment};

verus! {

#[verifier::external_type_specification]
#[verifier::external_body]
pub struct ExExif(exif::Exif);

#[verifier::external_type_specification]
#[verifier::external_body]
pub struct ExExifError(exif::Error);

/// Which directory a field is looked up in.
#[derive(Debug, Clone, Copy, PartialEq, Eq, Structural)]
pub enum Ifd {
    /// The first directory (TIFF context).
    Primary,
    /// The GPS directory linked from the first directory.
    Gps,
}

/// A field's value as read back, in the forms that decoding looks at.
pub enum FieldValue {
    Absent,
    Ascii(Vec<Vec<u8>>),
    Short(Vec<u16>),
    Rational(Vec<(u32, u32)>),
    Undefined(Vec<u8>),
    /// Present, with a type that decoding does not read.
    Other,
}

pub enum FieldModel {
    Absent,
    Ascii(Seq<Seq<u8>>),
    Short(Seq<u16>),
    Rational(Seq<(u32, u32)>),
    Undefined(Seq<u8>),
    Other,
}

impl View for FieldValue {
    type V = FieldModel;

    open spec fn view(&self) -> FieldModel {
        match self {
            FieldValue::Absent => FieldModel::Absent,
            FieldValue::Ascii(v) => FieldModel::Ascii(v@.map_values(|s: Vec<u8>| s@)),
            FieldValue::Short(v) => FieldModel::Short(v@),
            FieldValue::Rational(v) => FieldModel::Rational(v@),
            FieldValue::Undefined(v) => FieldModel::Undefined(v@),
            FieldValue::Other => FieldModel::Other,
        }
    }
}

/// Whether kamadak-exif accepts a TIFF structure.
pub uninterp spec fn tiff_accepted(tiff: Seq<u8>) -> bool;

/// The TIFF data that a parsed `exif::Exif` was read from.
pub uninterp spec fn exif_data_of(e: exif::Exif) -> Seq<u8>;

/// The field with a tag in the first directory or in the GPS directory of a
/// TIFF structure, as kamadak-exif reads it.
pub uninterp spec fn tiff_field_of(tiff: Seq<u8>, ifd: Ifd, tag: u16) -> FieldModel;

/// Relies on kamadak-exif's `Reader::read_raw`, which keeps the data it
/// parsed.
#[verifier::external_body]
fn read_tiff(data: Vec<u8>) -> (r: Result<exif::Exif, exif::Error>)
    ensures
        r is Ok <==> tiff_accepted(data@),
        r matches Ok(e) ==> exif_data_of(e) == data@,
{
    exif::Reader::new().read_raw(data)
}

/// Relies on kamadak-exif's `Exif::get_field` for the primary image.
#[verifier::external_body]
fn exif_field(e: &exif::Exif, ifd: Ifd, tag: u16) -> (r: FieldValue)
    ensures
        r@ == tiff_field_of(exif_data_of(*e), ifd, tag),
{
    let ctx = match ifd {
        Ifd::Primary => exif::Context::Tiff,
        Ifd::Gps => exif::Context::Gps,
    };
    match e.get_field(exif::Tag(ctx, tag), exif::In::PRIMARY).map(|f| &f.value) {
        None => FieldValue::Absent,
        Some(exif::Value::Ascii(v)) => FieldValue::Ascii(v.clone()),
        Some(exif::Value::Short(v)) => FieldValue::Short(v.clone()),
        Some(exif::Value::Rational(v)) => FieldValue::Rational(v.iter().map(|q| (q.num, q.denom)).collect()),
        Some(exif::Value::Undefined(v, _)) => FieldValue::Undefined(v.clone()),
        Some(_) => FieldValue::Other,
    }
}

/// The fields that decoding reads.
pub struct ExifFields {
    pub orientation: FieldValue,
    pub date_time: FieldValue,
    pub user_comment: FieldValue,
    pub latitude_ref: FieldValue,
    pub latitude: FieldValue,
    pub longitude_ref: FieldValue,
    pub longitude: FieldValue,
    pub altitude: FieldValue,
    pub img_direction: FieldValue,
}

pub struct FieldsModel {
    pub orientation: FieldModel,
    pub date_time: FieldModel,
    pub user_comment: FieldModel,
    pub latitude_ref: FieldModel,
    pub latitude: FieldModel,
    pub longitude_ref: FieldModel,
    pub longitude: FieldModel,
    pub altitude: FieldModel,
    pub img_direction: FieldModel,
}

impl View for ExifFields {
    type V = FieldsModel;

    open spec fn view(&self) -> FieldsModel {
        FieldsModel {
            orientation: self.orientation@,
            date_time: self.date_time@,
            user_comment: self.user_comment@,
            latitude_ref: self.latitude_ref@,
            latitude: self.latitude@,
            longitude_ref: self.longitude_ref@,
            longitude: self.longitude@,
            altitude: self.altitude@,
            img_direction: self.img_direction@,
        }
    }
}

/// The fields of a TIFF structure, as kamadak-exif reads them.
pub open spec fn fields_of_tiff(t: Seq<u8>) -> FieldsModel {
    FieldsModel {
        orientation: tiff_field_of(t, Ifd::Primary, ORIENTATION),
        date_time: tiff_field_of(t, Ifd::Primary, DATE_TIME),
        user_comment: tiff_field_of(t, Ifd::Primary, USER_COMMENT),
        latitude_ref: tiff_field_of(t, Ifd::Gps, GPS_LATITUDE_REF),
        latitude: tiff_field_of(t, Ifd::Gps, GPS_LATITUDE),
        longitude_ref: tiff_field_of(t, Ifd::Gps, GPS_LONGITUDE_REF),
        longitude: tiff_field_of(t, Ifd::Gps, GPS_LONGITUDE),
        altitude: tiff_field_of(t, Ifd::Gps, GPS_ALTITUDE),
        img_direction: tiff_field_of(t, Ifd::Gps, GPS_IMG_DIRECTION),
    }
}

/// `num / den` in units of `1 / scale`, rounded down.
pub open spec fn scaled(q: (u32, u32), scale: int) -> int {
    (q.0 * scale) / (q.1 as int)
}

/// Degrees, minutes and seconds in hundredths of an arc-second; `None`
/// where there are fewer than three fractions or a denominator is zero.
pub open spec fn dms_units(rs: Seq<(u32, u32)>) -> Option<int> {
    if rs.len() >= 3 && rs[0].1 != 0 && rs[1].1 != 0 && rs[2].1 != 0 {
        Some(scaled(rs[0], 360000) + scaled(rs[1], 6000) + scaled(rs[2], 100))
    } else {
        None
    }
}

/// The first text of an ASCII field starts with `c`.
pub open spec fn text_starts_with(f: FieldModel, c: u8) -> bool {
    f matches FieldModel::Ascii(v) && v.len() > 0 && v[0].len() > 0 && v[0][0] == c
}

/// A coordinate: it needs its fractions and a reference field; the
/// reference letter `negative` makes it negative. Zero otherwise.
pub open spec fn decoded_coordinate(value: FieldModel, reference: FieldModel, negative: u8) -> int {
    match value {
        FieldModel::Rational(rs) => if reference is Absent {
            0
        } else {
            match dms_units(rs) {
                Some(u) => if text_starts_with(reference, negative) {
                    -u
                } else {
                    u
                },
                None => 0,
            }
        },
        _ => 0,
    }
}

/// The first fraction of a field in units of `1 / scale`, where there is
/// one with a non-zero denominator.
pub open spec fn decoded_fraction(f: FieldModel, scale: int) -> Option<i64> {
    match f {
        FieldModel::Rational(rs) => if rs.len() > 0 && rs[0].1 != 0 {
            Some(scaled(rs[0], scale) as i64)
        } else {
            None
        },
        _ => None,
    }
}

pub open spec fn decoded_orientation(f: FieldModel) -> Option<u16> {
    match f {
        FieldModel::Short(v) => if v.len() > 0 {
            Some(v[0])
        } else {
            None
        },
        _ => None,
    }
}

pub open spec fn is_digit(b: u8) -> bool {
    48 <= b <= 57
}

/// The decimal number written by `width` digits starting at `start`.
pub open spec fn number_at(t: Seq<u8>, start: int, width: nat) -> int
    decreases width,
{
    if width == 0 {
        0
    } else {
        number_at(t, start, (width - 1) as nat) * 10 + (t[start + width - 1] - 48)
    }
}

pub open spec fn digits_at(t: Seq<u8>, start: int, width: nat) -> bool {
    forall|i: int| start <= i < start + width ==> is_digit(#[trigger] t[i])
}

/// A date-time text `YYYY:MM:DD HH:MM:SS`, read into its six numbers.
pub open spec fn parse_civil(t: Seq<u8>) -> Option<Civil> {
    if t.len() == 19 && t[4] == 58 && t[7] == 58 && t[10] == 32 && t[13] == 58 && t[16] == 58
        && digits_at(t, 0, 4) && digits_at(t, 5, 2) && digits_at(t, 8, 2) && digits_at(t, 11, 2)
        && digits_at(t, 14, 2) && digits_at(t, 17, 2) {
        Some(
            (
                number_at(t, 0, 4) as i32,
                number_at(t, 5, 2) as u32,
                number_at(t, 8, 2) as u32,
                number_at(t, 11, 2) as u32,
                number_at(t, 14, 2) as u32,
                number_at(t, 17, 2) as u32,
            ),
        )
    } else {
        None
    }
}

/// The Unix time of the date-time field; 0 where it is missing or cannot be
/// read.
pub open spec fn decoded_captured_at(f: FieldModel) -> i64 {
    match f {
        FieldModel::Ascii(v) => if v.len() > 0 {
            match parse_civil(v[0]) {
                Some(c) => match utc_seconds_of(c) {
                    Some(s) => s as i64,
                    None => 0,
                },
                None => 0,
            }
        } else {
            0
        },
        _ => 0,
    }
}

/// The two sources recorded in the user comment, where it holds them.
pub open spec fn decoded_sources(f: FieldModel) -> Option<(Seq<char>, Seq<char>)> {
    match f {
        FieldModel::Undefined(c) => provenance_of_comment(c),
        _ => None,
    }
}

/// What a record decoded from `f` holds: each field read where it is
/// present and readable, its default otherwise (no altitude, bearing or
/// orientation, time 0, accuracy 0, sources `unknown`).
pub open spec fn decodes_to(f: FieldsModel, m: PhotoMetadata) -> bool {
    &&& m.latitude == decoded_coordinate(f.latitude, f.latitude_ref, 83u8)
    &&& m.longitude == decoded_coordinate(f.longitude, f.longitude_ref, 87u8)
    &&& m.altitude == decoded_fraction(f.altitude, 1000)
    &&& m.bearing == decoded_fraction(f.img_direction, 100)
    &&& m.orientation_code == decoded_orientation(f.orientation)
    &&& m.captured_at == decoded_captured_at(f.date_time)
    &&& m.accuracy == 0
    &&& match decoded_sources(f.user_comment) {
        Some((a, b)) => m.location_source@ == a && m.bearing_source@ == b,
        None => m.location_source@ == "unknown"@ && m.bearing_source@ == "unknown"@,
    }
}

fn scaled_exec(q: (u32, u32), scale: u32) -> (r: u64)
    requires
        q.1 != 0,
        scale <= 360000,
    ensures
        r == scaled(q, scale as int),
{
    assert(q.0 * scale <= 4294967295 * 360000) by (nonlinear_arith)
        requires
            q.0 <= 4294967295,
            scale <= 360000,
    ;
    (q.0 as u64 * scale as u64) / q.1 as u64
}

fn coordinate(value: &FieldValue, reference: &FieldValue, negative: u8) -> (r: i64)
    ensures
        r == decoded_coordinate(value@, reference@, negative),
{
    match value {
        FieldValue::Rational(rs) => {
            if let FieldValue::Absent = reference {
                return 0;
            }
            if rs.len() >= 3 && rs[0].1 != 0 && rs[1].1 != 0 && rs[2].1 != 0 {
                let d = scaled_exec(rs[0], 360000);
                let m = scaled_exec(rs[1], 6000);
                let s = scaled_exec(rs[2], 100);
                proof {
                    assert(d <= 4294967295 * 360000) by (nonlinear_arith)
                        requires
                            d == (rs@[0].0 * 360000) / (rs@[0].1 as int),
                            rs@[0].1 >= 1,
                            rs@[0].0 <= 4294967295,
                    ;
                    assert(m <= 4294967295 * 6000) by (nonlinear_arith)
                        requires
                            m == (rs@[1].0 * 6000) / (rs@[1].1 as int),
                            rs@[1].1 >= 1,
                            rs@[1].0 <= 4294967295,
                    ;
                    assert(s <= 4294967295 * 100) by (nonlinear_arith)
                        requires
                            s == (rs@[2].0 * 100) / (rs@[2].1 as int),
                            rs@[2].1 >= 1,
                            rs@[2].0 <= 4294967295,
                    ;
                }
                let u = (d + m + s) as i64;
                let neg = match reference {
                    FieldValue::Ascii(v) => v.len() > 0 && v[0].len() > 0 && v[0][0] == negative,
                    _ => false,
                };
                if neg {
                    -u
                } else {
                    u
                }
            } else {
                0
            }
        },
        _ => 0,
    }
}

fn fraction(f: &FieldValue, scale: u32) -> (r: Option<i64>)
    requires
        scale <= 360000,
    ensures
        r == decoded_fraction(f@, scale as int),
{
    match f {
        FieldValue::Rational(rs) => {
            if rs.len() > 0 && rs[0].1 != 0 {
                let v = scaled_exec(rs[0], scale);
                proof {
                    assert(v <= 4294967295 * 360000) by (nonlinear_arith)
                        requires
                            v == (rs@[0].0 * scale) / (rs@[0].1 as int),
                            rs@[0].1 >= 1,
                            rs@[0].0 <= 4294967295,
                            scale <= 360000,
                    ;
                }
                Some(v as i64)
            } else {
                None
            }
        },
        _ => None,
    }
}

/// Reads `width` decimal digits starting at `start`.
fn read_number(t: &Vec<u8>, start: usize, width: usize) -> (r: Option<u32>)
    requires
        start + width <= t.len(),
        width <= 4,
    ensures
        r is Some <==> digits_at(t@, start as int, width as nat),
        r matches Some(v) ==> v == number_at(t@, start as int, width as nat),
{
    let mut v: u32 = 0;
    let mut i: usize = 0;
    let ghost mut bound: int = 1;
    while i < width
        invariant
            start + width <= t.len(),
            width <= 4,
            i <= width,
            digits_at(t@, start as int, i as nat),
            v == number_at(t@, start as int, i as nat),
            v < bound,
            bound <= 10000,
            i == 0 ==> bound == 1,
            i == 1 ==> bound == 10,
            i == 2 ==> bound == 100,
            i == 3 ==> bound == 1000,
            i == 4 ==> bound == 10000,
        decreases width - i,
    {
        let b = t[start + i];
        if b < 48 || b > 57 {
            assert(!is_digit(t@[start + i]));
            return None;
        }
        v = v * 10 + (b - 48) as u32;
        i = i + 1;
        proof {
            bound = bound * 10;
        }
    }
    Some(v)
}

/// Reads a date-time text `YYYY:MM:DD HH:MM:SS` into its six numbers.
fn parse_datetime(t: &Vec<u8>) -> (r: Option<Civil>)
    ensures
        r == parse_civil(t@),
{
    if t.len() != 19 || t[4] != 58 || t[7] != 58 || t[10] != 32 || t[13] != 58 || t[16] != 58 {
        return None;
    }
    let y = read_number(t, 0, 4);
    let mo = read_number(t, 5, 2);
    let d = read_number(t, 8, 2);
    let h = read_number(t, 11, 2);
    let mi = read_number(t, 14, 2);
    let s = read_number(t, 17, 2);
    match (y, mo, d, h, mi, s) {
        (Some(y), Some(mo), Some(d), Some(h), Some(mi), Some(s)) => Some(
            (y as i32, mo, d, h, mi, s),
        ),
        _ => None,
    }
}

fn captured_at(f: &FieldValue) -> (r: i64)
    ensures
        r == decoded_captured_at(f@),
{
    match f {
        FieldValue::Ascii(v) => {
            if v.len() > 0 {
                match parse_datetime(&v[0]) {
                    Some(c) => match utc_seconds(c) {
                        Some(s) => s,
                        None => 0,
                    },
                    None => 0,
                }
            } else {
                0
            }
        },
        _ => 0,
    }
}

/// Builds the record that the fields describe; see `decodes_to`.
pub fn decode_fields(f: &ExifFields) -> (r: PhotoMetadata)
    ensures
        decodes_to(f@, r),
{
    let (location_source, bearing_source) = match &f.user_comment {
        FieldValue::Undefined(c) => match read_provenance_comment(c.as_slice()) {
            Some(p) => p,
            None => (String::from_str("unknown"), String::from_str("unknown")),
        },
        _ => (String::from_str("unknown"), String::from_str("unknown")),
    };
    let orientation_code = match &f.orientation {
        FieldValue::Short(v) => if v.len() > 0 {
            Some(v[0])
        } else {
            None
        },
        _ => None,
    };
    PhotoMetadata {
        latitude: coordinate(&f.latitude, &f.latitude_ref, 83),
        longitude: coordinate(&f.longitude, &f.longitude_ref, 87),
        altitude: fraction(&f.altitude, 1000),
        bearing: fraction(&f.img_direction, 100),
        captured_at: captured_at(&f.date_time),
        accuracy: 0,
        location_source,
        bearing_source,
        orientation_code,
    }
}

/// The TIFF structure inside an EXIF payload: after an `Exif\0\0` prefix
/// where there is one, else the payload itself where it starts with a byte
/// order mark (`II` or `MM`).
pub open spec fn tiff_of_payload(p: Seq<u8>) -> Result<Seq<u8>, ExifError> {
    if p.len() >= 6 && p[0] == 69 && p[1] == 120 && p[2] == 105 && p[3] == 102 && p[4] == 0 && p[5]
        == 0 {
        Ok(p.skip(6))
    } else if p.len() >= 2 && ((p[0] == 73 && p[1] == 73) || (p[0] == 77 && p[1] == 77)) {
        Ok(p)
    } else {
        Err(ExifError::InvalidExifFormat)
    }
}

pub fn tiff_from_payload(p: Vec<u8>) -> (r: Result<Vec<u8>, ExifError>)
    ensures
        r matches Ok(t) ==> tiff_of_payload(p@) == Ok::<Seq<u8>, ExifError>(t@),
        r matches Err(e) ==> tiff_of_payload(p@) == Err::<Seq<u8>, ExifError>(e),
{
    let n = p.len();
    if n >= 6 && p[0] == 69 && p[1] == 120 && p[2] == 105 && p[3] == 102 && p[4] == 0 && p[5] == 0 {
        let mut t: Vec<u8> = Vec::new();
        let mut i: usize = 6;
        while i < n
            invariant
                n == p.len(),
                6 <= i <= n,
                t@ == p@.subrange(6, i as int),
            decreases n - i,
        {
            t.push(p[i]);
            i = i + 1;
            assert(t@ =~= p@.subrange(6, i as int));
        }
        assert(t@ =~= p@.skip(6));
        Ok(t)
    } else if n >= 2 && ((p[0] == 73 && p[1] == 73) || (p[0] == 77 && p[1] == 77)) {
        Ok(p)
    } else {
        Err(ExifError::InvalidExifFormat)
    }
}

/// Parses a TIFF structure and decodes the record it holds. Fails with
/// `TiffParseError` exactly where kamadak-exif rejects the structure.
pub fn decode_tiff(tiff: Vec<u8>) -> (r: Result<PhotoMetadata, ExifError>)
    ensures
        r is Ok <==> tiff_accepted(tiff@),
        r matches Err(e) ==> e == ExifError::TiffParseError,
        r matches Ok(m) ==> decodes_to(fields_of_tiff(tiff@), m),
{
    let ghost t = tiff@;
    let e = match read_tiff(tiff) {
        Ok(e) => e,
        Err(_) => return Err(ExifError::TiffParseError),
    };
    let fields = ExifFields {
        orientation: exif_field(&e, Ifd::Primary, ORIENTATION),
        date_time: exif_field(&e, Ifd::Primary, DATE_TIME),
        user_comment: exif_field(&e, Ifd::Primary, USER_COMMENT),
        latitude_ref: exif_field(&e, Ifd::Gps, GPS_LATITUDE_REF),
        latitude: exif_field(&e, Ifd::Gps, GPS_LATITUDE),
        longitude_ref: exif_field(&e, Ifd::Gps, GPS_LONGITUDE_REF),
        longitude: exif_field(&e, Ifd::Gps, GPS_LONGITUDE),
        altitude: exif_field(&e, Ifd::Gps, GPS_ALTITUDE),
        img_direction: exif_field(&e, Ifd::Gps, GPS_IMG_DIRECTION),
    };
    assert(fields@ == fields_of_tiff(t));
    Ok(decode_fields(&fields))
}

/// Reads the record stored in a JPEG file's EXIF segment. Fails, with the
/// error of the first step that fails, where the file is no JPEG, has no
/// EXIF segment, the segment holds no TIFF structure, or that structure is
/// malformed; a field that is missing or unreadable takes its default.
pub fn read_photo_exif_bytes(jpeg: &[u8]) -> (r: Result<PhotoMetadata, ExifError>)
    ensures
        match exif_payload_of(jpeg@) {
            Err(e) => r matches Err(x) && x == e,
            Ok(p) => match tiff_of_payload(p) {
                Err(e) => r matches Err(x) && x == e,
                Ok(t) => if tiff_accepted(t) {
                    r matches Ok(m) && decodes_to(fields_of_tiff(t), m)
                } else {
                    r matches Err(x) && x == ExifError::TiffParseError
                },
            },
        },
{
    let payload = read_exif_payload(jpeg)?;
    let tiff = tiff_from_payload(payload)?;
    decode_tiff(tiff)
}

} // verus!
