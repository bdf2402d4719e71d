use vstd::prelude::*;
use crate::datetime::{digits, text_for_timestamp, timestamp_text};
use crate::encoder::{
    entries_small, entry, exif_segment, find_tag, gps_pointer, lemma_bearing_small, lemma_find_put,
    lemma_gps_small, lemma_layout_fits, lemma_put_entry, lemma_put_small, linked_ifd0, put_entry,
    segment_gps, segment_ifd0, small_value, strictly_ascending, with_orientation, with_timestamps,
    DATE_TIME, DATE_TIME_ORIGINAL, GPS_IFD_POINTER, ORIENTATION, USER_COMMENT,
};
use crate::decoder::{
    decoded_coordinate, decoded_fraction, decoded_orientation, dms_units, scaled, FieldModel,
    FieldsModel,
};
use crate::encoder::{
    abs, dms_rationals, GPS_ALTITUDE, GPS_IMG_DIRECTION, GPS_LATITUDE, GPS_LATITUDE_REF,
    GPS_LONGITUDE, GPS_LONGITUDE_REF,
};
use crate::metadata::{metadata_in_range, PhotoMetadata, LONGITUDE_LIMIT};
use crate::provenance::provenance_comment;
use crate::tiff::{
    directory_placed, gps_data_start, gps_directory_start, ifd0_data_start, layout_fits,
    lemma_layout_offsets, read_u16, read_u32, EntryModel, ValueModel,
};

verus! {

/// The first directory of the segment for `m`, link to the GPS directory
/// included.
pub open spec fn written_ifd0(m: PhotoMetadata, t: Seq<u8>) -> Seq<EntryModel> {
    linked_ifd0(segment_ifd0(m, t), segment_gps(m))
}

proof fn lemma_put_ascending(es: Seq<EntryModel>, e: EntryModel)
    requires
        strictly_ascending(es),
    ensures
        strictly_ascending(put_entry(es, e)),
{
    lemma_put_entry(es, e);
}

/// The directories of a segment are ordered, small, and the first does not
/// yet hold the link to the GPS directory.
proof fn lemma_segment_lists(m: PhotoMetadata, t: Seq<u8>)
    requires
        t.len() == 19,
    ensures
        strictly_ascending(segment_ifd0(m, t)),
        strictly_ascending(segment_gps(m)),
        find_tag(segment_ifd0(m, t), GPS_IFD_POINTER) is None,
        entries_small(segment_ifd0(m, t), 4),
        entries_small(segment_gps(m), 11),
        segment_gps(m).len() > 0,
{
    broadcast use lemma_find_put;

    let e = Seq::<EntryModel>::empty();
    let i1 = match m.orientation_code {
        Some(o) => with_orientation(e, o),
        None => e,
    };
    assert(entries_small(i1, 1) && strictly_ascending(i1)) by {
        if let Some(o) = m.orientation_code {
            lemma_put_small(e, entry(ORIENTATION, ValueModel::Short(o)), 0);
            lemma_put_ascending(e, entry(ORIENTATION, ValueModel::Short(o)));
        }
    }
    let da = entry(DATE_TIME, ValueModel::Ascii(t));
    let db = entry(DATE_TIME_ORIGINAL, ValueModel::Ascii(t));
    let a = put_entry(i1, da);
    lemma_put_small(i1, da, 1);
    lemma_put_ascending(i1, da);
    lemma_put_small(a, db, 2);
    lemma_put_ascending(a, db);
    let i2 = with_timestamps(i1, t);
    match provenance_comment(m.location_source@, m.bearing_source@) {
        Some(c) => {
            lemma_put_small(i2, entry(USER_COMMENT, ValueModel::Undefined(c)), 3);
            lemma_put_ascending(i2, entry(USER_COMMENT, ValueModel::Undefined(c)));
        },
        None => {},
    }
    lemma_gps_small(m.latitude, m.longitude, m.altitude);
    lemma_gps_ascending(m);
    let g = crate::encoder::with_gps_data(e, m.latitude, m.longitude, m.altitude);
    if let Some(b) = m.bearing {
        lemma_bearing_small(g, b, 7);
    }
    assert(find_tag(segment_gps(m), crate::encoder::GPS_LATITUDE) is Some);
}

proof fn lemma_gps_ascending(m: PhotoMetadata)
    ensures
        strictly_ascending(segment_gps(m)),
{
    let e = Seq::<EntryModel>::empty();
    let g = crate::encoder::with_gps_data(e, m.latitude, m.longitude, m.altitude);
    let lat = m.latitude as int;
    let lon = m.longitude as int;
    let va = entry(crate::encoder::GPS_VERSION_ID, ValueModel::Byte(seq![2u8, 3u8, 0u8, 0u8]));
    let a = put_entry(e, va);
    lemma_put_ascending(e, va);
    let vb = entry(crate::encoder::GPS_LATITUDE_REF, crate::encoder::hemisphere(lat, 78u8, 83u8));
    let b = put_entry(a, vb);
    lemma_put_ascending(a, vb);
    let vc = entry(
        crate::encoder::GPS_LATITUDE,
        ValueModel::Rational(crate::encoder::dms_rationals(crate::encoder::abs(lat))),
    );
    let c = put_entry(b, vc);
    lemma_put_ascending(b, vc);
    let vd = entry(crate::encoder::GPS_LONGITUDE_REF, crate::encoder::hemisphere(lon, 69u8, 87u8));
    let d = put_entry(c, vd);
    lemma_put_ascending(c, vd);
    let ve = entry(
        crate::encoder::GPS_LONGITUDE,
        ValueModel::Rational(crate::encoder::dms_rationals(crate::encoder::abs(lon))),
    );
    let f = put_entry(d, ve);
    lemma_put_ascending(d, ve);
    if let Some(x) = m.altitude {
        let vg = entry(crate::encoder::GPS_ALTITUDE_REF, ValueModel::Byte(seq![0u8]));
        lemma_put_ascending(f, vg);
        lemma_put_ascending(
            put_entry(f, vg),
            entry(
                crate::encoder::GPS_ALTITUDE,
                ValueModel::Rational(
                    seq![(crate::encoder::saturated_u32(crate::encoder::abs(x as int)), 1000u32)],
                ),
            ),
        );
    }
    if let Some(bearing) = m.bearing {
        let r = ValueModel::Rational(seq![(crate::encoder::saturated_u32(bearing as int), 100u32)]);
        let t = ValueModel::Ascii(seq![84u8]);
        let p = put_entry(g, entry(crate::encoder::GPS_IMG_DIRECTION_REF, t));
        lemma_put_ascending(g, entry(crate::encoder::GPS_IMG_DIRECTION_REF, t));
        let q = put_entry(p, entry(crate::encoder::GPS_IMG_DIRECTION, r));
        lemma_put_ascending(p, entry(crate::encoder::GPS_IMG_DIRECTION, r));
        let u = put_entry(q, entry(crate::encoder::GPS_DEST_BEARING_REF, t));
        lemma_put_ascending(q, entry(crate::encoder::GPS_DEST_BEARING_REF, t));
        lemma_put_ascending(u, entry(crate::encoder::GPS_DEST_BEARING, r));
    }
}

/// Adding the link keeps the first directory ordered and the layout within
/// the format's limits; the link holds the offset of the GPS directory.
proof fn lemma_linked(ifd0: Seq<EntryModel>, gps: Seq<EntryModel>)
    requires
        strictly_ascending(ifd0),
        find_tag(ifd0, GPS_IFD_POINTER) is None,
        entries_small(ifd0, 16),
        entries_small(gps, 32),
        gps.len() > 0,
    ensures
        layout_fits(linked_ifd0(ifd0, gps), gps),
        strictly_ascending(linked_ifd0(ifd0, gps)),
        find_tag(linked_ifd0(ifd0, gps), GPS_IFD_POINTER) == Some(
            ValueModel::Long(gps_directory_start(linked_ifd0(ifd0, gps)) as u32),
        ),
{
    broadcast use lemma_find_put;

    let p = gps_pointer(ifd0);
    let l = put_entry(ifd0, p);
    lemma_put_entry(ifd0, p);
    assert forall|i: int| 0 <= i < l.len() implies small_value(#[trigger] l[i].value) by {
        if l[i] != p {
            let k = choose|k: int| 0 <= k < ifd0.len() && ifd0[k] == l[i];
        }
    }
    lemma_layout_fits(l, gps);
}

/// Two encodings of the same record agree byte for byte whenever its capture
/// time has a date-time text: nothing but the clock fallback varies.
pub proof fn lemma_encoding_deterministic(m: PhotoMetadata, t1: Seq<u8>, t2: Seq<u8>)
    requires
        text_for_timestamp(m.captured_at as int, t1),
        text_for_timestamp(m.captured_at as int, t2),
        timestamp_text(m.captured_at as int) is Some,
    ensures
        exif_segment(m, t1) == exif_segment(m, t2),
{
}

/// Offset integrity of every segment the encoder writes: the header points
/// at the first directory, its link at the GPS directory, each entry sits in
/// its slot, and each value too long for its slot lies inside the segment at
/// the offset the slot holds.
pub proof fn lemma_segment_offsets(m: PhotoMetadata, t: Seq<u8>)
    requires
        t.len() == 19,
    ensures
        read_u32(exif_segment(m, t), 4) == 8,
        directory_placed(
            exif_segment(m, t),
            8,
            written_ifd0(m, t),
            ifd0_data_start(written_ifd0(m, t), segment_gps(m)),
        ),
        find_tag(written_ifd0(m, t), GPS_IFD_POINTER) == Some(
            ValueModel::Long(gps_directory_start(written_ifd0(m, t)) as u32),
        ),
        directory_placed(
            exif_segment(m, t),
            gps_directory_start(written_ifd0(m, t)),
            segment_gps(m),
            gps_data_start(written_ifd0(m, t), segment_gps(m)),
        ),
{
    lemma_segment_lists(m, t);
    lemma_linked(segment_ifd0(m, t), segment_gps(m));
    lemma_layout_offsets(written_ifd0(m, t), segment_gps(m));
}

/// In every segment the encoder writes, tags strictly increase along each
/// directory, as read from the bytes.
pub proof fn lemma_segment_tags_ascending(m: PhotoMetadata, t: Seq<u8>)
    requires
        t.len() == 19,
    ensures
        strictly_ascending(written_ifd0(m, t)),
        strictly_ascending(segment_gps(m)),
        forall|i: int, j: int|
            0 <= i < j < written_ifd0(m, t).len() ==> #[trigger] read_u16(
                exif_segment(m, t),
                10 + 12 * i,
            ) < #[trigger] read_u16(exif_segment(m, t), 10 + 12 * j),
        forall|i: int, j: int|
            0 <= i < j < segment_gps(m).len() ==> #[trigger] read_u16(
                exif_segment(m, t),
                gps_directory_start(written_ifd0(m, t)) + 2 + 12 * i,
            ) < #[trigger] read_u16(
                exif_segment(m, t),
                gps_directory_start(written_ifd0(m, t)) + 2 + 12 * j,
            ),
{
    lemma_segment_lists(m, t);
    lemma_linked(segment_ifd0(m, t), segment_gps(m));
    lemma_segment_offsets(m, t);
    let l = written_ifd0(m, t);
    let g = segment_gps(m);
    let s = exif_segment(m, t);
    let ds0 = ifd0_data_start(l, g);
    let gd = gps_directory_start(l);
    let gds = gps_data_start(l, g);
    assert forall|i: int, j: int| 0 <= i < j < l.len() implies #[trigger] read_u16(s, 10 + 12 * i)
        < #[trigger] read_u16(s, 10 + 12 * j) by {
        assert(crate::tiff::entry_placed(s, 8, l, ds0, i));
        assert(crate::tiff::entry_placed(s, 8, l, ds0, j));
    }
    assert forall|i: int, j: int| 0 <= i < j < g.len() implies #[trigger] read_u16(
        s,
        gd + 2 + 12 * i,
    ) < #[trigger] read_u16(s, gd + 2 + 12 * j) by {
        assert(crate::tiff::entry_placed(s, gd, g, gds, i));
        assert(crate::tiff::entry_placed(s, gd, g, gds, j));
    }
}

/// How a TIFF reader presents the value of an entry: a text as one string
/// (its NUL dropped), one SHORT as a list of one, fractions and opaque bytes
/// as they are.
pub open spec fn field_of_entry(v: Option<ValueModel>) -> FieldModel {
    match v {
        None => FieldModel::Absent,
        Some(ValueModel::Ascii(s)) => FieldModel::Ascii(seq![s]),
        Some(ValueModel::Short(x)) => FieldModel::Short(seq![x]),
        Some(ValueModel::Rational(rs)) => FieldModel::Rational(rs),
        Some(ValueModel::Undefined(b)) => FieldModel::Undefined(b),
        Some(_) => FieldModel::Other,
    }
}

/// The fields that decoding reads, as the two directories present them.
pub open spec fn fields_of_entries(ifd0: Seq<EntryModel>, gps: Seq<EntryModel>) -> FieldsModel {
    FieldsModel {
        orientation: field_of_entry(find_tag(ifd0, ORIENTATION)),
        date_time: field_of_entry(find_tag(ifd0, DATE_TIME)),
        user_comment: field_of_entry(find_tag(ifd0, USER_COMMENT)),
        latitude_ref: field_of_entry(find_tag(gps, GPS_LATITUDE_REF)),
        latitude: field_of_entry(find_tag(gps, GPS_LATITUDE)),
        longitude_ref: field_of_entry(find_tag(gps, GPS_LONGITUDE_REF)),
        longitude: field_of_entry(find_tag(gps, GPS_LONGITUDE)),
        altitude: field_of_entry(find_tag(gps, GPS_ALTITUDE)),
        img_direction: field_of_entry(find_tag(gps, GPS_IMG_DIRECTION)),
    }
}

/// The fields written for `m`, as a reader finds them in the segment's
/// directories.
pub open spec fn written_fields(m: PhotoMetadata, t: Seq<u8>) -> FieldsModel {
    fields_of_entries(written_ifd0(m, t), segment_gps(m))
}

/// Degrees, minutes and hundredths of seconds give back the angle exactly.
pub proof fn lemma_dms_round_trip(u: int)
    requires
        0 <= u <= LONGITUDE_LIMIT,
    ensures
        dms_units(dms_rationals(u)) == Some(u),
{
    let rs = dms_rationals(u);
    let d = u / 360000;
    let r = u % 360000;
    let mi = r / 6000;
    let s = r % 6000;
    vstd::arithmetic::div_mod::lemma_fundamental_div_mod(u, 360000);
    vstd::arithmetic::div_mod::lemma_fundamental_div_mod(r, 6000);
    vstd::arithmetic::div_mod::lemma_mod_mod(u, 6000, 60);
    assert(d <= 180) by (nonlinear_arith)
        requires
            d == u / 360000,
            0 <= u <= LONGITUDE_LIMIT,
    ;
    assert(0 <= r < 360000);
    assert(0 <= mi < 60) by (nonlinear_arith)
        requires
            mi == r / 6000,
            0 <= r < 360000,
    ;
    assert(u % 6000 == s);
    assert(rs[0] == (d as u32, 1u32));
    assert(rs[1] == (mi as u32, 1u32));
    assert(rs[2] == (s as u32, 100u32));
    assert(scaled(rs[0], 360000) == d * 360000) by (nonlinear_arith)
        requires
            rs[0].0 == d,
            rs[0].1 == 1,
    ;
    assert(scaled(rs[1], 6000) == mi * 6000) by (nonlinear_arith)
        requires
            rs[1].0 == mi,
            rs[1].1 == 1,
    ;
    assert(scaled(rs[2], 100) == s) by (nonlinear_arith)
        requires
            rs[2].0 == s,
            rs[2].1 == 100,
    ;
}

proof fn lemma_fraction_round_trip(x: int, scale: int)
    requires
        0 <= x <= u32::MAX,
        0 < scale <= 1000,
    ensures
        scaled((x as u32, scale as u32), scale) == x,
{
    assert((x * scale) / scale == x) by (nonlinear_arith)
        requires
            scale > 0,
    ;
}

/// Reading back what the encoder writes gives the record that was written:
/// latitude and longitude exactly (in hundredths of an arc-second), the
/// altitude in millimetres and the bearing in hundredths of a degree,
/// the orientation, the date-time text (which reads back as the calendar
/// time of the capture) and the provenance comment. Altitude
/// is recorded as a magnitude above sea level, so it comes back only when it
/// is not negative (and fits 32 bits).
pub proof fn lemma_round_trip(m: PhotoMetadata, t: Seq<u8>)
    requires
        metadata_in_range(m),
        t.len() == 19,
        m.altitude matches Some(a) ==> 0 <= a <= u32::MAX,
    ensures
        decoded_coordinate(written_fields(m, t).latitude, written_fields(m, t).latitude_ref, 83u8)
            == m.latitude,
        decoded_coordinate(written_fields(m, t).longitude, written_fields(m, t).longitude_ref, 87u8)
            == m.longitude,
        decoded_fraction(written_fields(m, t).altitude, 1000) == m.altitude,
        decoded_fraction(written_fields(m, t).img_direction, 100) == m.bearing,
        decoded_orientation(written_fields(m, t).orientation) == m.orientation_code,
        written_fields(m, t).date_time == FieldModel::Ascii(seq![t]),
        timestamp_text(m.captured_at as int) == Some(t) ==> crate::decoder::parse_civil(t)
            == crate::datetime::utc_civil_of(m.captured_at as int),
        written_fields(m, t).user_comment == match provenance_comment(
            m.location_source@,
            m.bearing_source@,
        ) {
            Some(c) => FieldModel::Undefined(c),
            None => FieldModel::Absent,
        },
{
    broadcast use lemma_find_put;

    let f = written_fields(m, t);
    lemma_dms_round_trip(abs(m.latitude as int));
    lemma_dms_round_trip(abs(m.longitude as int));
    if let Some(a) = m.altitude {
        lemma_fraction_round_trip(a as int, 1000);
    }
    if let Some(b) = m.bearing {
        lemma_fraction_round_trip(b as int, 100);
    }
    assert(find_tag(Seq::<EntryModel>::empty(), ORIENTATION) is None);
    if timestamp_text(m.captured_at as int) == Some(t) {
        lemma_datetime_read_back(crate::datetime::utc_civil_of(m.captured_at as int)->Some_0);
    }
}

/// Every segment the encoder writes fits one JPEG segment.
#[verifier::rlimit(50)]
pub proof fn lemma_segment_size(m: PhotoMetadata, t: Seq<u8>)
    requires
        t.len() == 19,
    ensures
        exif_segment(m, t).len() <= 20000,
{
    lemma_segment_lists(m, t);
    lemma_linked(segment_ifd0(m, t), segment_gps(m));
    lemma_layout_offsets(written_ifd0(m, t), segment_gps(m));
    let l = written_ifd0(m, t);
    let g = segment_gps(m);
    lemma_put_entry(segment_ifd0(m, t), gps_pointer(segment_ifd0(m, t)));
    assert forall|i: int| 0 <= i < l.len() implies small_value(#[trigger] l[i].value) by {
        if l[i] != gps_pointer(segment_ifd0(m, t)) {
            let k = choose|k: int|
                0 <= k < segment_ifd0(m, t).len() && segment_ifd0(m, t)[k] == l[i];
        }
    }
    crate::encoder::lemma_small_data_size(l);
    crate::encoder::lemma_small_data_size(g);
}

/// Writing `width` digits of a number below `10^width` and reading them
/// back gives the number.
proof fn lemma_digits_read_back(v: int, width: nat, pre: Seq<u8>, post: Seq<u8>)
    requires
        0 <= v,
        width == 4 ==> v < 10000,
        width == 2 ==> v < 100,
        width == 2 || width == 4,
    ensures
        crate::datetime::digits(v, width).len() == width,
        crate::decoder::digits_at(pre + crate::datetime::digits(v, width) + post, pre.len() as int, width),
        crate::decoder::number_at(pre + crate::datetime::digits(v, width) + post, pre.len() as int, width)
            == v,
{
    lemma_digits_general(v, width, pre, post);
    if width == 2 {
        assert(v / 10 / 10 == 0) by (nonlinear_arith)
            requires
                0 <= v < 100,
        ;
        assert(pow10_part(v / 10, 1) == pow10_part(v / 10 / 10, 0) * 10);
        assert(pow10_part(v, 2) == pow10_part(v / 10, 1) * 10);
    } else {
        assert(v / 10 / 10 / 10 / 10 == 0) by (nonlinear_arith)
            requires
                0 <= v < 10000,
        ;
        assert(pow10_part(v / 10 / 10 / 10, 1) == pow10_part(v / 10 / 10 / 10 / 10, 0) * 10);
        assert(pow10_part(v / 10 / 10, 2) == pow10_part(v / 10 / 10 / 10, 1) * 10);
        assert(pow10_part(v / 10, 3) == pow10_part(v / 10 / 10, 2) * 10);
        assert(pow10_part(v, 4) == pow10_part(v / 10, 3) * 10);
    }
}

/// The digits read back give the number up to the part that did not fit.
proof fn lemma_digits_general(v: int, width: nat, pre: Seq<u8>, post: Seq<u8>)
    requires
        0 <= v,
    ensures
        crate::datetime::digits(v, width).len() == width,
        crate::decoder::digits_at(pre + crate::datetime::digits(v, width) + post, pre.len() as int, width),
        crate::decoder::number_at(pre + crate::datetime::digits(v, width) + post, pre.len() as int, width)
            == v - pow10_part(v, width),
    decreases width,
{
    let d = crate::datetime::digits(v, width);
    let s = pre + d + post;
    if width > 0 {
        let w1 = (width - 1) as nat;
        let d1 = crate::datetime::digits(v / 10, w1);
        let last = (48 + v % 10) as u8;
        let post1 = seq![last] + post;
        lemma_digits_general(v / 10, w1, pre, post1);
        assert(d == d1.push(last));
        assert(s =~= pre + d1 + post1);
        assert forall|i: int| pre.len() <= i < pre.len() + width implies crate::decoder::is_digit(
            #[trigger] s[i],
        ) by {
            if i == pre.len() + width - 1 {
                assert(s[i] == last);
            } else {
                assert(crate::decoder::is_digit((pre + d1 + post1)[i]));
            }
        }
        assert(s[pre.len() + width - 1] == last);
        assert(crate::decoder::number_at(s, pre.len() as int, w1) == v / 10 - pow10_part(v / 10, w1));
        lemma_pow10_part_step(v, width);
    }
}

/// What of `v` lies beyond its last `width` decimal digits.
pub open spec fn pow10_part(v: int, width: nat) -> int
    decreases width,
{
    if width == 0 {
        v
    } else {
        pow10_part(v / 10, (width - 1) as nat) * 10
    }
}

proof fn lemma_pow10_part_step(v: int, width: nat)
    requires
        0 <= v,
        width > 0,
    ensures
        (v / 10 - pow10_part(v / 10, (width - 1) as nat)) * 10 + v % 10 == v - pow10_part(v, width),
{
    vstd::arithmetic::div_mod::lemma_fundamental_div_mod(v, 10);
}

/// A date-time text that the encoder writes reads back as the calendar
/// time it was written from.
#[verifier::rlimit(60)]
pub proof fn lemma_datetime_read_back(c: crate::datetime::Civil)
    requires
        crate::datetime::civil_writable(c),
    ensures
        crate::decoder::parse_civil(crate::datetime::datetime_text(c)) == Some(c),
{
    let t = crate::datetime::datetime_text(c);
    let y = digits(c.0 as int, 4);
    let mo = digits(c.1 as int, 2);
    let d = digits(c.2 as int, 2);
    let h = digits(c.3 as int, 2);
    let mi = digits(c.4 as int, 2);
    let s = digits(c.5 as int, 2);
    let colon = seq![58u8];
    let space = seq![32u8];
    lemma_digits_read_back(c.0 as int, 4, Seq::empty(), colon + mo + colon + d + space + h + colon + mi + colon + s);
    lemma_digits_read_back(c.1 as int, 2, y + colon, colon + d + space + h + colon + mi + colon + s);
    lemma_digits_read_back(c.2 as int, 2, y + colon + mo + colon, space + h + colon + mi + colon + s);
    lemma_digits_read_back(c.3 as int, 2, y + colon + mo + colon + d + space, colon + mi + colon + s);
    lemma_digits_read_back(c.4 as int, 2, y + colon + mo + colon + d + space + h + colon, colon + s);
    lemma_digits_read_back(c.5 as int, 2, y + colon + mo + colon + d + space + h + colon + mi + colon, Seq::empty());
    assert(t =~= Seq::<u8>::empty() + y + (colon + mo + colon + d + space + h + colon + mi + colon + s));
    assert(t =~= (y + colon) + mo + (colon + d + space + h + colon + mi + colon + s));
    assert(t =~= (y + colon + mo + colon) + d + (space + h + colon + mi + colon + s));
    assert(t =~= (y + colon + mo + colon + d + space) + h + (colon + mi + colon + s));
    assert(t =~= (y + colon + mo + colon + d + space + h + colon) + mi + (colon + s));
    assert(t =~= (y + colon + mo + colon + d + space + h + colon + mi + colon) + s + Seq::<u8>::empty());
    assert(t.len() == 19);
    assert(t[4] == 58 && t[7] == 58 && t[10] == 32 && t[13] == 58 && t[16] == 58);
    assert(crate::decoder::number_at(t, 0, 4) == c.0);
    assert(crate::decoder::number_at(t, 5, 2) == c.1);
    assert(crate::decoder::number_at(t, 8, 2) == c.2);
    assert(crate::decoder::number_at(t, 11, 2) == c.3);
    assert(crate::decoder::number_at(t, 14, 2) == c.4);
    assert(crate::decoder::number_at(t, 17, 2) == c.5);
}

} // verus!
