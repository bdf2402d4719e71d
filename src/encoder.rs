use vstd::prelude::*;
use crate::datetime::{exif_datetime_for, text_for_timestamp};
use crate::metadata::{
    metadata_in_range, normalized_orientation, PhotoMetadata, LONGITUDE_LIMIT, UNITS_PER_DEGREE,
};
use crate::provenance::{make_provenance_comment, provenance_comment};
use crate::tiff::{
    lemma_rationals_len,
    data_size, directory_len, layout_fits, models, tiff_bytes, tiff_len, value_bytes, value_fits,
    write_tiff, EntryModel, TiffEntry, TiffValue, ValueModel,
};

verus! {

pub const ORIENTATION: u16 = 0x0112;
pub const DATE_TIME: u16 = 0x0132;
pub const GPS_IFD_POINTER: u16 = 0x8825;
pub const DATE_TIME_ORIGINAL: u16 = 0x9003;
pub const USER_COMMENT: u16 = 0x9286;

pub const GPS_VERSION_ID: u16 = 0x0000;
pub const GPS_LATITUDE_REF: u16 = 0x0001;
pub const GPS_LATITUDE: u16 = 0x0002;
pub const GPS_LONGITUDE_REF: u16 = 0x0003;
pub const GPS_LONGITUDE: u16 = 0x0004;
pub const GPS_ALTITUDE_REF: u16 = 0x0005;
pub const GPS_ALTITUDE: u16 = 0x0006;
pub const GPS_IMG_DIRECTION_REF: u16 = 0x0010;
pub const GPS_IMG_DIRECTION: u16 = 0x0011;
pub const GPS_DEST_BEARING_REF: u16 = 0x0017;
pub const GPS_DEST_BEARING: u16 = 0x0018;

/// Hundredths of an arc-second in one arc-minute.
pub const UNITS_PER_MINUTE: i64 = 6000;

/// `es` with `e` put in its place by tag: an entry with the same tag is
/// replaced, otherwise `e` goes after every smaller tag and before every
/// larger one.
pub open spec fn put_entry(es: Seq<EntryModel>, e: EntryModel) -> Seq<EntryModel>
    decreases es.len(),
{
    if es.len() == 0 {
        seq![e]
    } else if es.last().tag < e.tag {
        es.push(e)
    } else if es.last().tag == e.tag {
        es.drop_last().push(e)
    } else {
        put_entry(es.drop_last(), e).push(es.last())
    }
}

/// Tags strictly increase along the directory.
pub open spec fn strictly_ascending(es: Seq<EntryModel>) -> bool {
    forall|i: int, j: int| 0 <= i < j < es.len() ==> #[trigger] es[i].tag < #[trigger] es[j].tag
}

/// The value of the last entry with the given tag.
pub open spec fn find_tag(es: Seq<EntryModel>, tag: u16) -> Option<ValueModel>
    decreases es.len(),
{
    if es.len() == 0 {
        None
    } else if es.last().tag == tag {
        Some(es.last().value)
    } else {
        find_tag(es.drop_last(), tag)
    }
}

pub proof fn lemma_put_entry(es: Seq<EntryModel>, e: EntryModel)
    ensures
        strictly_ascending(es) ==> strictly_ascending(put_entry(es, e)),
        forall|t: u16|
            #[trigger] find_tag(put_entry(es, e), t) == if t == e.tag {
                Some(e.value)
            } else {
                find_tag(es, t)
            },
        put_entry(es, e).len() <= es.len() + 1,
        find_tag(es, e.tag) is None ==> put_entry(es, e).len() == es.len() + 1,
        forall|i: int|
            0 <= i < put_entry(es, e).len() ==> #[trigger] put_entry(es, e)[i] == e || es.contains(
                put_entry(es, e)[i],
            ),
    decreases es.len(),
{
    if es.len() == 0 {
        assert(seq![e].drop_last() =~= es);
    } else if es.last().tag < e.tag {
        assert forall|t: u16| #[trigger]
            find_tag(put_entry(es, e), t) == if t == e.tag {
                Some(e.value)
            } else {
                find_tag(es, t)
            } by {
            assert(es.push(e).drop_last() =~= es);
        }
        assert forall|i: int| 0 <= i < put_entry(es, e).len() implies #[trigger] put_entry(es, e)[i]
            == e || es.contains(put_entry(es, e)[i]) by {
            if i < es.len() {
                assert(es[i] == put_entry(es, e)[i]);
            }
        }
    } else if es.last().tag == e.tag {
        let d = es.drop_last();
        assert forall|t: u16| #[trigger]
            find_tag(put_entry(es, e), t) == if t == e.tag {
                Some(e.value)
            } else {
                find_tag(es, t)
            } by {
            assert(d.push(e).drop_last() =~= d);
        }
        assert forall|i: int| 0 <= i < put_entry(es, e).len() implies #[trigger] put_entry(es, e)[i]
            == e || es.contains(put_entry(es, e)[i]) by {
            if i < d.len() {
                assert(es[i] == put_entry(es, e)[i]);
            }
        }
        if strictly_ascending(es) {
            assert forall|i: int, j: int| 0 <= i < j < put_entry(es, e).len() implies #[trigger] put_entry(
                es,
                e,
            )[i].tag < #[trigger] put_entry(es, e)[j].tag by {
                assert(es[i].tag < es[j].tag);
            }
        }
    } else {
        let d = es.drop_last();
        let p = put_entry(d, e);
        lemma_put_entry(d, e);
        assert forall|t: u16| #[trigger]
            find_tag(put_entry(es, e), t) == if t == e.tag {
                Some(e.value)
            } else {
                find_tag(es, t)
            } by {
            let l = es.last();
            assert(put_entry(es, e) == p.push(l));
            assert(p.push(l).drop_last() =~= p);
            assert(p.push(l).last() == l);
            assert(find_tag(p, t) == if t == e.tag {
                Some(e.value)
            } else {
                find_tag(d, t)
            });
        }
        assert forall|i: int| 0 <= i < put_entry(es, e).len() implies #[trigger] put_entry(es, e)[i]
            == e || es.contains(put_entry(es, e)[i]) by {
            if i < p.len() {
                assert(p[i] == put_entry(es, e)[i]);
                if p[i] != e {
                    let k = choose|k: int| 0 <= k < d.len() && d[k] == p[i];
                    assert(es[k] == p[i]);
                }
            } else {
                assert(es[es.len() - 1] == put_entry(es, e)[i]);
            }
        }
        if strictly_ascending(es) {
            assert(strictly_ascending(d));
            assert forall|i: int, j: int| 0 <= i < j < put_entry(es, e).len() implies #[trigger] put_entry(
                es,
                e,
            )[i].tag < #[trigger] put_entry(es, e)[j].tag by {
                if j == p.len() {
                    if p[i] == e {
                    } else {
                        let k = choose|k: int| 0 <= k < d.len() && d[k] == p[i];
                        assert(es[k] == p[i]);
                        assert(es[k].tag < es[es.len() - 1].tag);
                    }
                } else {
                    assert(p[i] == put_entry(es, e)[i]);
                    assert(p[j] == put_entry(es, e)[j]);
                }
            }
        }
    }
}

pub broadcast proof fn lemma_find_put(es: Seq<EntryModel>, e: EntryModel, t: u16)
    ensures
        #[trigger] find_tag(put_entry(es, e), t) == if t == e.tag {
            Some(e.value)
        } else {
            find_tag(es, t)
        },
{
    lemma_put_entry(es, e);
}

/// Puts `e` into the directory `es`, keeping tags in increasing order.
fn put_tiff_entry(es: &mut Vec<TiffEntry>, e: TiffEntry)
    ensures
        models(final(es)@) == put_entry(models(old(es)@), e@),
    decreases old(es)@.len(),
{
    let ghost before = models(es@);
    let n = es.len();
    if n == 0 {
        es.push(e);
        assert(models(es@) =~= put_entry(before, e@));
    } else if es[n - 1].tag < e.tag {
        es.push(e);
        assert(models(es@) =~= put_entry(before, e@));
    } else if es[n - 1].tag == e.tag {
        es.pop();
        es.push(e);
        assert(models(es@) =~= put_entry(before, e@));
    } else {
        let last = es.pop().unwrap();
        assert(models(es@) =~= before.drop_last());
        put_tiff_entry(es, e);
        es.push(last);
        assert(models(es@) =~= put_entry(before, e@));
    }
}

pub open spec fn abs(x: int) -> int {
    if x < 0 {
        -x
    } else {
        x
    }
}

/// An angle as degrees/1, minutes/1 and hundredths of seconds/100.
pub open spec fn dms_rationals(units: int) -> Seq<(u32, u32)> {
    seq![
        ((units / 360000) as u32, 1u32),
        (((units % 360000) / 6000) as u32, 1u32),
        ((units % 6000) as u32, 100u32),
    ]
}

/// `N`/`S` or `E`/`W` by the sign of the coordinate.
pub open spec fn hemisphere(x: int, positive: u8, negative: u8) -> ValueModel {
    ValueModel::Ascii(seq![if x >= 0 { positive } else { negative }])
}

pub open spec fn saturated_u32(x: int) -> u32 {
    if x < 0 {
        0
    } else if x > u32::MAX {
        u32::MAX
    } else {
        x as u32
    }
}

pub open spec fn entry(tag: u16, value: ValueModel) -> EntryModel {
    EntryModel { tag, value }
}

pub open spec fn with_orientation(es: Seq<EntryModel>, code: u16) -> Seq<EntryModel> {
    put_entry(es, entry(ORIENTATION, ValueModel::Short(code)))
}

pub open spec fn with_timestamps(es: Seq<EntryModel>, text: Seq<u8>) -> Seq<EntryModel> {
    put_entry(
        put_entry(es, entry(DATE_TIME, ValueModel::Ascii(text))),
        entry(DATE_TIME_ORIGINAL, ValueModel::Ascii(text)),
    )
}

pub open spec fn with_altitude(es: Seq<EntryModel>, alt: Option<i64>) -> Seq<EntryModel> {
    match alt {
        Some(a) => put_entry(
            put_entry(es, entry(GPS_ALTITUDE_REF, ValueModel::Byte(seq![0u8]))),
            entry(GPS_ALTITUDE, ValueModel::Rational(seq![(saturated_u32(abs(a as int)), 1000u32)])),
        ),
        None => es,
    }
}

/// Version 2.3, latitude and longitude with their hemispheres, and the
/// altitude where there is one (always recorded as above sea level).
pub open spec fn with_gps_data(es: Seq<EntryModel>, lat: i64, lon: i64, alt: Option<i64>) -> Seq<
    EntryModel,
> {
    let a = put_entry(es, entry(GPS_VERSION_ID, ValueModel::Byte(seq![2u8, 3u8, 0u8, 0u8])));
    let b = put_entry(a, entry(GPS_LATITUDE_REF, hemisphere(lat as int, 78u8, 83u8)));
    let c = put_entry(b, entry(GPS_LATITUDE, ValueModel::Rational(dms_rationals(abs(lat as int)))));
    let d = put_entry(c, entry(GPS_LONGITUDE_REF, hemisphere(lon as int, 69u8, 87u8)));
    let e = put_entry(d, entry(GPS_LONGITUDE, ValueModel::Rational(dms_rationals(abs(lon as int)))));
    with_altitude(e, alt)
}

/// Image direction and destination bearing, both relative to true north.
pub open spec fn with_bearing(es: Seq<EntryModel>, bearing: i64) -> Seq<EntryModel> {
    let r = ValueModel::Rational(seq![(saturated_u32(bearing as int), 100u32)]);
    let t = ValueModel::Ascii(seq![84u8]);
    put_entry(
        put_entry(
            put_entry(put_entry(es, entry(GPS_IMG_DIRECTION_REF, t)), entry(GPS_IMG_DIRECTION, r)),
            entry(GPS_DEST_BEARING_REF, t),
        ),
        entry(GPS_DEST_BEARING, r),
    )
}

pub open spec fn with_comment(es: Seq<EntryModel>, comment: Option<Seq<u8>>) -> Seq<EntryModel> {
    match comment {
        Some(c) => put_entry(es, entry(USER_COMMENT, ValueModel::Undefined(c))),
        None => es,
    }
}

/// The link from the first directory to the GPS directory, which follows the
/// first directory once the link itself is counted.
pub open spec fn gps_pointer(ifd0: Seq<EntryModel>) -> EntryModel {
    entry(GPS_IFD_POINTER, ValueModel::Long((8 + directory_len(ifd0.len() + 1int)) as u32))
}

/// The first directory as written: the link to the GPS directory is added
/// where there is one.
pub open spec fn linked_ifd0(ifd0: Seq<EntryModel>, gps: Seq<EntryModel>) -> Seq<EntryModel> {
    if gps.len() == 0 {
        ifd0
    } else {
        put_entry(ifd0, gps_pointer(ifd0))
    }
}

/// The segment that a builder holding `ifd0` and `gps` produces.
pub open spec fn built_bytes(ifd0: Seq<EntryModel>, gps: Seq<EntryModel>) -> Seq<u8> {
    tiff_bytes(linked_ifd0(ifd0, gps), gps)
}

/// Collects directory entries, then lays them out as one TIFF structure.
pub struct ExifBuilder {
    ifd0_entries: Vec<TiffEntry>,
    gps_entries: Vec<TiffEntry>,
}

/// Values that any builder can lay out.
pub open spec fn small_value(v: ValueModel) -> bool {
    value_bytes(v).len() <= 1024
}

pub open spec fn entries_small(es: Seq<EntryModel>, max: nat) -> bool {
    &&& es.len() <= max
    &&& forall|i: int| 0 <= i < es.len() ==> small_value(#[trigger] es[i].value)
}

impl ExifBuilder {
    /// The first directory, without the link to the GPS directory.
    pub closed spec fn ifd0(&self) -> Seq<EntryModel> {
        models(self.ifd0_entries@)
    }

    pub closed spec fn gps(&self) -> Seq<EntryModel> {
        models(self.gps_entries@)
    }

    pub open spec fn wf(&self) -> bool {
        &&& strictly_ascending(self.ifd0())
        &&& strictly_ascending(self.gps())
        &&& find_tag(self.ifd0(), GPS_IFD_POINTER) is None
    }

    pub fn new() -> (r: Self)
        ensures
            r.wf(),
            r.ifd0() == Seq::<EntryModel>::empty(),
            r.gps() == Seq::<EntryModel>::empty(),
    {
        let r = ExifBuilder { ifd0_entries: Vec::new(), gps_entries: Vec::new() };
        assert(r.ifd0() =~= Seq::<EntryModel>::empty());
        assert(r.gps() =~= Seq::<EntryModel>::empty());
        r
    }

    fn put_ifd0(&mut self, e: TiffEntry)
        requires
            old(self).wf(),
            e.tag != GPS_IFD_POINTER,
        ensures
            final(self).wf(),
            final(self).ifd0() == put_entry(old(self).ifd0(), e@),
            final(self).gps() == old(self).gps(),
    {
        proof {
            lemma_put_entry(self.ifd0(), e@);
        }
        put_tiff_entry(&mut self.ifd0_entries, e);
    }

    fn put_gps(&mut self, e: TiffEntry)
        requires
            old(self).wf(),
        ensures
            final(self).wf(),
            final(self).gps() == put_entry(old(self).gps(), e@),
            final(self).ifd0() == old(self).ifd0(),
    {
        proof {
            lemma_put_entry(self.gps(), e@);
        }
        put_tiff_entry(&mut self.gps_entries, e);
    }

    pub fn add_orientation(&mut self, orientation: u16)
        requires
            old(self).wf(),
        ensures
            final(self).wf(),
            final(self).ifd0() == with_orientation(old(self).ifd0(), orientation),
            final(self).gps() == old(self).gps(),
    {
        self.put_ifd0(TiffEntry { tag: ORIENTATION, value: TiffValue::Short(orientation) });
    }

    /// Records the capture time as both DateTime and DateTimeOriginal.
    pub fn add_timestamps(&mut self, timestamp: i64)
        requires
            old(self).wf(),
        ensures
            final(self).wf(),
            final(self).gps() == old(self).gps(),
            exists|t: Seq<u8>|
                text_for_timestamp(timestamp as int, t) && final(self).ifd0() == with_timestamps(
                    old(self).ifd0(),
                    t,
                ),
    {
        let text = exif_datetime_for(timestamp);
        let ghost t = text@;
        self.put_ifd0(TiffEntry { tag: DATE_TIME, value: TiffValue::Ascii(text.clone()) });
        self.put_ifd0(TiffEntry { tag: DATE_TIME_ORIGINAL, value: TiffValue::Ascii(text) });
        assert(final(self).ifd0() == with_timestamps(old(self).ifd0(), t));
    }

    /// Records position and altitude. Coordinates are given in hundredths of
    /// an arc-second and must lie within 180 degrees of zero; the altitude in
    /// millimetres, of which only the magnitude is kept (saturated to 32
    /// bits).
    pub fn add_gps_data(&mut self, lat: i64, lon: i64, alt: Option<i64>)
        requires
            old(self).wf(),
            -LONGITUDE_LIMIT <= lat <= LONGITUDE_LIMIT,
            -LONGITUDE_LIMIT <= lon <= LONGITUDE_LIMIT,
        ensures
            final(self).wf(),
            final(self).gps() == with_gps_data(old(self).gps(), lat, lon, alt),
            final(self).ifd0() == old(self).ifd0(),
    {
        self.put_gps(TiffEntry { tag: GPS_VERSION_ID, value: TiffValue::Byte(gps_version()) });
        let lat_ref: u8 = if lat >= 0 { 78 } else { 83 };
        self.put_gps(TiffEntry { tag: GPS_LATITUDE_REF, value: TiffValue::Ascii(single_byte(lat_ref)) });
        self.put_gps(TiffEntry { tag: GPS_LATITUDE, value: TiffValue::Rational(dms(lat)) });
        let lon_ref: u8 = if lon >= 0 { 69 } else { 87 };
        self.put_gps(TiffEntry { tag: GPS_LONGITUDE_REF, value: TiffValue::Ascii(single_byte(lon_ref)) });
        self.put_gps(TiffEntry { tag: GPS_LONGITUDE, value: TiffValue::Rational(dms(lon)) });
        if let Some(a) = alt {
            self.put_gps(TiffEntry { tag: GPS_ALTITUDE_REF, value: TiffValue::Byte(single_byte(0)) });
            let num = saturate(if a < 0 { -(a as i128) } else { a as i128 });
            self.put_gps(TiffEntry { tag: GPS_ALTITUDE, value: TiffValue::Rational(one_rational(num, 1000)) });
        }
    }

    /// Records the bearing, in hundredths of a degree, as image direction and
    /// as destination bearing.
    pub fn add_bearing(&mut self, bearing: i64)
        requires
            old(self).wf(),
        ensures
            final(self).wf(),
            final(self).gps() == with_bearing(old(self).gps(), bearing),
            final(self).ifd0() == old(self).ifd0(),
    {
        let num = saturate(bearing as i128);
        self.put_gps(TiffEntry { tag: GPS_IMG_DIRECTION_REF, value: TiffValue::Ascii(single_byte(84)) });
        self.put_gps(TiffEntry { tag: GPS_IMG_DIRECTION, value: TiffValue::Rational(one_rational(num, 100)) });
        self.put_gps(TiffEntry { tag: GPS_DEST_BEARING_REF, value: TiffValue::Ascii(single_byte(84)) });
        self.put_gps(TiffEntry { tag: GPS_DEST_BEARING, value: TiffValue::Rational(one_rational(num, 100)) });
    }

    /// Records where the location and the bearing came from, as a user
    /// comment; nothing is recorded where a source cannot be written as JSON.
    pub fn add_provenance(&mut self, location_source: &str, bearing_source: &str)
        requires
            old(self).wf(),
        ensures
            final(self).wf(),
            final(self).ifd0() == with_comment(
                old(self).ifd0(),
                provenance_comment(location_source@, bearing_source@),
            ),
            final(self).gps() == old(self).gps(),
    {
        match make_provenance_comment(location_source, bearing_source) {
            Some(c) => self.put_ifd0(TiffEntry { tag: USER_COMMENT, value: TiffValue::Undefined(c) }),
            None => {},
        }
    }

    /// Lays out the collected entries: header, first directory (with the link
    /// to the GPS directory when there are GPS entries), GPS directory and its
    /// data, then the data of the first directory.
    pub fn build(self) -> (r: Vec<u8>)
        requires
            self.wf(),
            entries_small(self.ifd0(), 16),
            entries_small(self.gps(), 32),
        ensures
            r@ == built_bytes(self.ifd0(), self.gps()),
    {
        let mut ifd0 = self.ifd0_entries;
        let gps = self.gps_entries;
        let ghost g = models(gps@);
        let ghost i0 = models(ifd0@);
        if gps.len() > 0 {
            let offset: u32 = 8 + 6 + 12 * (ifd0.len() as u32 + 1);
            put_tiff_entry(&mut ifd0, TiffEntry { tag: GPS_IFD_POINTER, value: TiffValue::Long(offset) });
        }
        proof {
            let l = linked_ifd0(i0, g);
            lemma_put_entry(i0, gps_pointer(i0));
            assert(models(ifd0@) == l);
            assert forall|i: int| 0 <= i < l.len() implies small_value(#[trigger] l[i].value) by {
                if gps@.len() > 0 && l[i] != gps_pointer(i0) {
                    let k = choose|k: int| 0 <= k < i0.len() && i0[k] == l[i];
                }
            }
            lemma_layout_fits(l, g);
        }
        write_tiff(&ifd0, &gps)
    }
}

/// The first directory written for `m`, given its date-time text.
pub open spec fn segment_ifd0(m: PhotoMetadata, t: Seq<u8>) -> Seq<EntryModel> {
    let a = match m.orientation_code {
        Some(o) => with_orientation(Seq::empty(), o),
        None => Seq::empty(),
    };
    with_comment(with_timestamps(a, t), provenance_comment(m.location_source@, m.bearing_source@))
}

/// The GPS directory written for `m`.
pub open spec fn segment_gps(m: PhotoMetadata) -> Seq<EntryModel> {
    let g = with_gps_data(Seq::empty(), m.latitude, m.longitude, m.altitude);
    match m.bearing {
        Some(b) => with_bearing(g, b),
        None => g,
    }
}

/// The EXIF segment written for `m`, given its date-time text.
pub open spec fn exif_segment(m: PhotoMetadata, t: Seq<u8>) -> Seq<u8> {
    built_bytes(segment_ifd0(m, t), segment_gps(m))
}

/// Builds the EXIF segment (a TIFF structure, without the JPEG framing) for
/// a normalized record: orientation, capture time, position, altitude and
/// bearing where present, and the provenance comment.
pub fn create_exif_segment_structured(metadata: &PhotoMetadata) -> (r: Vec<u8>)
    requires
        metadata_in_range(*metadata),
    ensures
        exists|t: Seq<u8>|
            text_for_timestamp(metadata.captured_at as int, t) && r@ == exif_segment(*metadata, t),
{
    let mut builder = ExifBuilder::new();
    if let Some(orientation) = metadata.orientation_code {
        builder.add_orientation(orientation);
    }
    let ghost i1 = builder.ifd0();
    builder.add_timestamps(metadata.captured_at);
    let ghost t = choose|t: Seq<u8>|
        text_for_timestamp(metadata.captured_at as int, t) && builder.ifd0() == with_timestamps(
            i1,
            t,
        );
    builder.add_gps_data(metadata.latitude, metadata.longitude, metadata.altitude);
    let ghost g1 = builder.gps();
    if let Some(bearing) = metadata.bearing {
        builder.add_bearing(bearing);
    }
    let ghost i2 = builder.ifd0();
    builder.add_provenance(metadata.location_source.as_str(), metadata.bearing_source.as_str());
    proof {
        let e = Seq::<EntryModel>::empty();
        assert(entries_small(e, 0));
        assert(entries_small(i1, 1)) by {
            if let Some(o) = metadata.orientation_code {
                lemma_put_small(e, entry(ORIENTATION, ValueModel::Short(o)), 0);
            }
        }
        let a = put_entry(i1, entry(DATE_TIME, ValueModel::Ascii(t)));
        lemma_put_small(i1, entry(DATE_TIME, ValueModel::Ascii(t)), 1);
        lemma_put_small(a, entry(DATE_TIME_ORIGINAL, ValueModel::Ascii(t)), 2);
        assert(entries_small(i2, 3));
        match provenance_comment(metadata.location_source@, metadata.bearing_source@) {
            Some(c) => {
                lemma_put_small(i2, entry(USER_COMMENT, ValueModel::Undefined(c)), 3);
            },
            None => {},
        }
        lemma_gps_small(metadata.latitude, metadata.longitude, metadata.altitude);
        if let Some(b) = metadata.bearing {
            lemma_bearing_small(g1, b, 7);
        }
        assert(segment_ifd0(*metadata, t) == builder.ifd0());
        assert(segment_gps(*metadata) == builder.gps());
    }
    let r = builder.build();
    assert(text_for_timestamp(metadata.captured_at as int, t) && r@ == exif_segment(*metadata, t));
    r
}

pub(crate) proof fn lemma_put_small(es: Seq<EntryModel>, e: EntryModel, max: nat)
    requires
        entries_small(es, max),
        small_value(e.value),
    ensures
        entries_small(put_entry(es, e), max + 1),
{
    lemma_put_entry(es, e);
    let p = put_entry(es, e);
    assert forall|i: int| 0 <= i < p.len() implies small_value(#[trigger] p[i].value) by {
        if p[i] != e {
            let k = choose|k: int| 0 <= k < es.len() && es[k] == p[i];
        }
    }
}

pub(crate) proof fn lemma_gps_small(lat: i64, lon: i64, alt: Option<i64>)
    ensures
        entries_small(with_gps_data(Seq::empty(), lat, lon, alt), 7),
{
    let e = Seq::<EntryModel>::empty();
    lemma_rationals_len(dms_rationals(abs(lat as int)));
    lemma_rationals_len(dms_rationals(abs(lon as int)));
    let va = entry(GPS_VERSION_ID, ValueModel::Byte(seq![2u8, 3u8, 0u8, 0u8]));
    let a = put_entry(e, va);
    lemma_put_small(e, va, 0);
    let vb = entry(GPS_LATITUDE_REF, hemisphere(lat as int, 78u8, 83u8));
    let b = put_entry(a, vb);
    lemma_put_small(a, vb, 1);
    let vc = entry(GPS_LATITUDE, ValueModel::Rational(dms_rationals(abs(lat as int))));
    let c = put_entry(b, vc);
    lemma_put_small(b, vc, 2);
    let vd = entry(GPS_LONGITUDE_REF, hemisphere(lon as int, 69u8, 87u8));
    let d = put_entry(c, vd);
    lemma_put_small(c, vd, 3);
    let ve = entry(GPS_LONGITUDE, ValueModel::Rational(dms_rationals(abs(lon as int))));
    let f = put_entry(d, ve);
    lemma_put_small(d, ve, 4);
    if let Some(x) = alt {
        let rs = seq![(saturated_u32(abs(x as int)), 1000u32)];
        lemma_rationals_len(rs);
        let vg = entry(GPS_ALTITUDE_REF, ValueModel::Byte(seq![0u8]));
        let g = put_entry(f, vg);
        lemma_put_small(f, vg, 5);
        lemma_put_small(g, entry(GPS_ALTITUDE, ValueModel::Rational(rs)), 6);
    } else {
        assert(entries_small(f, 7));
    }
}

pub(crate) proof fn lemma_bearing_small(es: Seq<EntryModel>, bearing: i64, max: nat)
    requires
        entries_small(es, max),
    ensures
        entries_small(with_bearing(es, bearing), max + 4),
{
    let rs = seq![(saturated_u32(bearing as int), 100u32)];
    lemma_rationals_len(rs);
    let r = ValueModel::Rational(rs);
    let t = ValueModel::Ascii(seq![84u8]);
    let a = put_entry(es, entry(GPS_IMG_DIRECTION_REF, t));
    lemma_put_small(es, entry(GPS_IMG_DIRECTION_REF, t), max);
    let b = put_entry(a, entry(GPS_IMG_DIRECTION, r));
    lemma_put_small(a, entry(GPS_IMG_DIRECTION, r), max + 1);
    let c = put_entry(b, entry(GPS_DEST_BEARING_REF, t));
    lemma_put_small(b, entry(GPS_DEST_BEARING_REF, t), max + 2);
    lemma_put_small(c, entry(GPS_DEST_BEARING, r), max + 3);
}

pub(crate) proof fn lemma_small_data_size(es: Seq<EntryModel>)
    requires
        forall|i: int| 0 <= i < es.len() ==> small_value(#[trigger] es[i].value),
    ensures
        data_size(es) <= 1024 * es.len(),
    decreases es.len(),
{
    if es.len() > 0 {
        let d = es.drop_last();
        assert forall|i: int| 0 <= i < d.len() implies small_value(#[trigger] d[i].value) by {
            assert(d[i] == es[i]);
        }
        lemma_small_data_size(d);
        assert(small_value(es[es.len() - 1].value));
    }
}

pub(crate) proof fn lemma_layout_fits(ifd0: Seq<EntryModel>, gps: Seq<EntryModel>)
    requires
        ifd0.len() <= 17,
        gps.len() <= 32,
        forall|i: int| 0 <= i < ifd0.len() ==> small_value(#[trigger] ifd0[i].value),
        forall|i: int| 0 <= i < gps.len() ==> small_value(#[trigger] gps[i].value),
    ensures
        layout_fits(ifd0, gps),
{
    lemma_small_data_size(ifd0);
    lemma_small_data_size(gps);
    assert forall|i: int| 0 <= i < ifd0.len() implies value_fits(#[trigger] ifd0[i].value) by {
        assert(small_value(ifd0[i].value));
    }
    assert forall|i: int| 0 <= i < gps.len() implies value_fits(#[trigger] gps[i].value) by {
        assert(small_value(gps[i].value));
    }
}

fn saturate(x: i128) -> (r: u32)
    ensures
        r == saturated_u32(x as int),
{
    if x < 0 {
        0
    } else if x > u32::MAX as i128 {
        u32::MAX
    } else {
        x as u32
    }
}

fn single_byte(b: u8) -> (r: Vec<u8>)
    ensures
        r@ == seq![b],
{
    let mut r: Vec<u8> = Vec::new();
    r.push(b);
    assert(r@ =~= seq![b]);
    r
}

fn gps_version() -> (r: Vec<u8>)
    ensures
        r@ == seq![2u8, 3u8, 0u8, 0u8],
{
    let mut r: Vec<u8> = Vec::new();
    r.push(2);
    r.push(3);
    r.push(0);
    r.push(0);
    assert(r@ =~= seq![2u8, 3u8, 0u8, 0u8]);
    r
}

fn one_rational(num: u32, den: u32) -> (r: Vec<(u32, u32)>)
    ensures
        r@ == seq![(num, den)],
{
    let mut r: Vec<(u32, u32)> = Vec::new();
    r.push((num, den));
    assert(r@ =~= seq![(num, den)]);
    r
}

fn dms(x: i64) -> (r: Vec<(u32, u32)>)
    requires
        -LONGITUDE_LIMIT <= x <= LONGITUDE_LIMIT,
    ensures
        r@ == dms_rationals(abs(x as int)),
{
    let u: i64 = if x < 0 { -x } else { x };
    let mut r: Vec<(u32, u32)> = Vec::new();
    r.push(((u / UNITS_PER_DEGREE) as u32, 1u32));
    r.push((((u % UNITS_PER_DEGREE) / UNITS_PER_MINUTE) as u32, 1u32));
    r.push(((u % UNITS_PER_MINUTE) as u32, 100u32));
    assert(r@ =~= dms_rationals(abs(x as int)));
    r
}

} // verus!
