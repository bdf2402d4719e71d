use hillview_exif::bearing::{bearing_lookup_time, mentions_sensor};
use hillview_exif::decoder::{decode_tiff, tiff_from_payload};
use hillview_exif::jpeg::{embed_exif, read_exif_payload};
use hillview_exif::provenance::{make_provenance_comment, read_provenance_comment};
use hillview_exif::datetime::{exif_datetime_for, format_timestamp};
use hillview_exif::{
    create_exif_segment_structured, determine_final_bearing, embed_photo_metadata,
    is_sensor_bearing_source, read_photo_exif_bytes, validate_orientation_code,
    validate_photo_metadata, BearingLookup, ExifBuilder, ExifError, PhotoMetadata,
};

/// Hundredths of an arc-second per degree.
const UNITS: f64 = 360000.0;

fn units(deg: f64) -> i64 {
    (deg * UNITS).round() as i64
}

fn sample_jpeg() -> Vec<u8> {
    let mut out = Vec::new();
    let pixels = vec![128u8; 8 * 8 * 3];
    image::codecs::jpeg::JpegEncoder::new_with_quality(&mut out, 90)
        .encode(&pixels, 8, 8, image::ExtendedColorType::Rgb8)
        .unwrap();
    out
}

fn metadata(lat: f64, lon: f64) -> PhotoMetadata {
    PhotoMetadata {
        latitude: units(lat),
        longitude: units(lon),
        altitude: None,
        bearing: None,
        captured_at: 1700000000,
        accuracy: 5000,
        location_source: String::from("manual"),
        bearing_source: String::from("manual"),
        orientation_code: None,
    }
}

fn u16_at(b: &[u8], at: usize) -> u16 {
    u16::from_le_bytes([b[at], b[at + 1]])
}

fn u32_at(b: &[u8], at: usize) -> u32 {
    u32::from_le_bytes([b[at], b[at + 1], b[at + 2], b[at + 3]])
}

fn close(a: i64, b: f64, tol: f64) -> bool {
    ((a as f64) / UNITS - b).abs() <= tol
}

#[test]
fn minimal_gps_only() {
    let m = metadata(48.8566, 2.3522);
    let (out, v) = embed_photo_metadata(&sample_jpeg(), m).unwrap();
    assert_eq!(v.orientation_code, Some(1));
    let back = read_photo_exif_bytes(&out).unwrap();
    assert!(close(back.latitude, 48.8566, 1e-4));
    assert!(close(back.longitude, 2.3522, 1e-4));
    assert_eq!(back.latitude, units(48.8566));
    assert_eq!(back.longitude, units(2.3522));
    assert_eq!(back.altitude, None);
    assert_eq!(back.bearing, None);
    assert_eq!(back.orientation_code, Some(1));
    assert_eq!(back.location_source, "manual");
    assert_eq!(back.bearing_source, "manual");
    assert_eq!(back.captured_at, 1700000000);
}

#[test]
fn full_metadata() {
    let mut m = metadata(48.8566, 2.3522);
    m.altitude = Some(35000);
    m.bearing = Some(27450);
    m.orientation_code = Some(6);
    let (out, _) = embed_photo_metadata(&sample_jpeg(), m).unwrap();
    let back = read_photo_exif_bytes(&out).unwrap();
    assert_eq!(back.altitude, Some(35000));
    assert_eq!(back.bearing, Some(27450));
    assert_eq!(back.orientation_code, Some(6));
    assert_eq!(back.latitude, units(48.8566));
}

#[test]
fn southern_western_hemisphere() {
    let m = metadata(-33.8688, -151.2093);
    let (out, _) = embed_photo_metadata(&sample_jpeg(), m).unwrap();
    let back = read_photo_exif_bytes(&out).unwrap();
    assert_eq!(back.latitude, units(-33.8688));
    assert_eq!(back.longitude, units(-151.2093));
    let tiff = create_exif_segment_structured(&validate_photo_metadata(metadata(-33.8688, -151.2093)));
    let text = String::from_utf8_lossy(&tiff).to_string();
    assert!(text.contains("S\0") && text.contains("W\0"));
}

#[test]
fn out_of_range_bearing() {
    let mut m = metadata(10.0, 10.0);
    m.bearing = Some(-1000);
    assert_eq!(validate_photo_metadata(m).bearing, Some(35000));
    let mut m = metadata(10.0, 10.0);
    m.bearing = Some(72000);
    assert_eq!(validate_photo_metadata(m).bearing, Some(0));
    let mut m = metadata(10.0, 10.0);
    m.bearing = Some(35999);
    assert_eq!(validate_photo_metadata(m).bearing, Some(35999));
}

/// A big-endian TIFF structure, as another camera would write it: a GPS
/// directory with latitude and longitude, and no user comment.
fn foreign_tiff() -> Vec<u8> {
    let mut t: Vec<u8> = Vec::new();
    t.extend_from_slice(b"MM\x00\x2a\x00\x00\x00\x08");
    // First directory: one entry, the link to the GPS directory at 26.
    t.extend_from_slice(&1u16.to_be_bytes());
    t.extend_from_slice(&0x8825u16.to_be_bytes());
    t.extend_from_slice(&4u16.to_be_bytes());
    t.extend_from_slice(&1u32.to_be_bytes());
    t.extend_from_slice(&26u32.to_be_bytes());
    t.extend_from_slice(&0u32.to_be_bytes());
    // GPS directory: four entries, data from 26 + 2 + 48 + 4 = 80.
    t.extend_from_slice(&4u16.to_be_bytes());
    for (tag, typ, count, value) in [
        (1u16, 2u16, 2u32, u32::from_be_bytes(*b"N\0\0\0")),
        (2, 5, 3, 80),
        (3, 2, 2, u32::from_be_bytes(*b"W\0\0\0")),
        (4, 5, 3, 104),
    ] {
        t.extend_from_slice(&tag.to_be_bytes());
        t.extend_from_slice(&typ.to_be_bytes());
        t.extend_from_slice(&count.to_be_bytes());
        t.extend_from_slice(&value.to_be_bytes());
    }
    t.extend_from_slice(&0u32.to_be_bytes());
    for (n, d) in [(51u32, 1u32), (30, 1), (1530, 100), (0, 1), (7, 1), (3000, 100)] {
        t.extend_from_slice(&n.to_be_bytes());
        t.extend_from_slice(&d.to_be_bytes());
    }
    t
}

#[test]
fn foreign_exif_without_comment() {
    let out = embed_exif(&sample_jpeg(), &foreign_tiff()).unwrap();
    let back = read_photo_exif_bytes(&out).unwrap();
    assert_eq!(back.location_source, "unknown");
    assert_eq!(back.bearing_source, "unknown");
    // 51 degrees 30' 15.30" north, 0 degrees 7' 30.00" west.
    assert_eq!(back.latitude, 51 * 360000 + 30 * 6000 + 1530);
    assert_eq!(back.longitude, -(7 * 6000 + 3000));
    assert_eq!(back.orientation_code, None);
    assert_eq!(back.captured_at, 0);
    assert_eq!(back.altitude, None);
}

#[test]
fn round_trip_with_escaped_sources() {
    let mut m = metadata(0.0, 179.9999);
    m.location_source = String::from("gps \"fused\" \\ é");
    m.bearing_source = String::from("compass\nsensor");
    m.altitude = Some(0);
    m.bearing = Some(0);
    let (out, v) = embed_photo_metadata(&sample_jpeg(), m).unwrap();
    let back = read_photo_exif_bytes(&out).unwrap();
    assert_eq!(back.location_source, v.location_source);
    assert_eq!(back.bearing_source, v.bearing_source);
    assert_eq!(back.latitude, 0);
    assert_eq!(back.longitude, units(179.9999));
    assert_eq!(back.altitude, Some(0));
    assert_eq!(back.bearing, Some(0));
}

#[test]
fn encoding_is_deterministic() {
    let mut m = metadata(48.8566, 2.3522);
    m.bearing = Some(27450);
    m.altitude = Some(35000);
    let v = validate_photo_metadata(m);
    let a = create_exif_segment_structured(&v);
    let b = create_exif_segment_structured(&v);
    assert_eq!(a, b);
}

fn directory_tags(seg: &[u8], at: usize) -> Vec<u16> {
    let n = u16_at(seg, at) as usize;
    (0..n).map(|i| u16_at(seg, at + 2 + 12 * i)).collect()
}

#[test]
fn directory_tags_ascending() {
    for alt in [None, Some(12000)] {
        for bearing in [None, Some(9000)] {
            let mut m = metadata(1.0, 2.0);
            m.altitude = alt;
            m.bearing = bearing;
            let seg = create_exif_segment_structured(&validate_photo_metadata(m));
            assert_eq!(&seg[0..8], b"II\x2a\x00\x08\x00\x00\x00");
            let ifd0 = directory_tags(&seg, 8);
            assert_eq!(ifd0, vec![0x0112, 0x0132, 0x8825, 0x9003, 0x9286]);
            let gps_at = 8 + 6 + 12 * ifd0.len();
            assert_eq!(u32_at(&seg, 8 + 2 + 12 * 2 + 8) as usize, gps_at);
            let gps = directory_tags(&seg, gps_at);
            assert!(gps.windows(2).all(|w| w[0] < w[1]));
            let expected = 5 + if alt.is_some() { 2 } else { 0 } + if bearing.is_some() { 4 } else { 0 };
            assert_eq!(gps.len(), expected);
        }
    }
}

#[test]
fn offsets_within_bounds() {
    let mut m = metadata(-12.5, 100.25);
    m.altitude = Some(1234567);
    m.bearing = Some(4512);
    let seg = create_exif_segment_structured(&validate_photo_metadata(m));
    let gps_at = u32_at(&seg, 8 + 2 + 12 * 2 + 8) as usize;
    let mut checked = 0;
    for dir in [8usize, gps_at] {
        let n = u16_at(&seg, dir) as usize;
        for i in 0..n {
            let e = dir + 2 + 12 * i;
            let (tag, typ, count) = (u16_at(&seg, e), u16_at(&seg, e + 2), u32_at(&seg, e + 4) as usize);
            let size = count * match typ { 5 => 8, 3 => 2, 4 => 4, _ => 1 };
            if size > 4 {
                let off = u32_at(&seg, e + 8) as usize;
                assert!(off + size <= seg.len());
                checked += 1;
                if dir == gps_at && tag == 2 {
                    let q: Vec<u32> = (0..6).map(|k| u32_at(&seg, off + 4 * k)).collect();
                    assert_eq!(q, vec![12, 1, 30, 1, 0, 100]);
                }
                if dir == gps_at && tag == 6 {
                    assert_eq!((u32_at(&seg, off), u32_at(&seg, off + 4)), (1234567, 1000));
                }
                if dir == gps_at && tag == 0x11 {
                    assert_eq!((u32_at(&seg, off), u32_at(&seg, off + 4)), (4512, 100));
                }
                if dir == 8 && tag == 0x0132 {
                    assert_eq!(&seg[off..off + size], b"2023:11:14 22:13:20\0");
                }
                if dir == 8 && tag == 0x9286 {
                    assert_eq!(&seg[off..off + 8], b"ASCII\0\0\0");
                    assert_eq!(
                        &seg[off + 8..off + size],
                        br#"{"location_source":"manual","bearing_source":"manual"}"#
                    );
                }
            }
        }
    }
    // Latitude, longitude, altitude, two bearings, two date-times, comment.
    assert_eq!(checked, 8);
}

#[test]
fn normalization_laws() {
    let mut m = metadata(100.0, 190.0);
    m.accuracy = -3;
    m.orientation_code = Some(5);
    let v = validate_photo_metadata(m);
    assert_eq!(v.latitude, units(90.0));
    assert_eq!(v.longitude, units(-170.0));
    assert_eq!(v.accuracy, 0);
    assert_eq!(v.orientation_code, Some(1));
    let w = validate_photo_metadata(v.clone());
    assert_eq!((w.latitude, w.longitude, w.bearing, w.accuracy), (v.latitude, v.longitude, v.bearing, v.accuracy));
    assert_eq!(w.orientation_code, v.orientation_code);
    assert_eq!(validate_photo_metadata(metadata(-95.0, -190.0)).latitude, units(-90.0));
    assert_eq!(validate_photo_metadata(metadata(-95.0, -190.0)).longitude, units(170.0));
    assert_eq!(validate_photo_metadata(metadata(0.0, 540.0)).longitude, units(-180.0));
    assert_eq!(validate_photo_metadata(metadata(0.0, 180.0)).longitude, units(180.0));
    assert_eq!(validate_photo_metadata(metadata(0.0, -180.0)).longitude, units(-180.0));
    let mut m = metadata(0.0, 0.0);
    m.altitude = Some(-900000);
    m.captured_at = -5;
    let v = validate_photo_metadata(m);
    assert_eq!(v.altitude, Some(-900000));
    assert_eq!(v.captured_at, -5);
}

#[test]
fn orientation_codes() {
    assert_eq!(validate_orientation_code(Some(1)), 1);
    assert_eq!(validate_orientation_code(Some(3)), 3);
    assert_eq!(validate_orientation_code(Some(6)), 6);
    assert_eq!(validate_orientation_code(Some(8)), 8);
    assert_eq!(validate_orientation_code(Some(2)), 1);
    assert_eq!(validate_orientation_code(Some(0)), 1);
    assert_eq!(validate_orientation_code(None), 1);
}

#[test]
fn error_not_a_jpeg() {
    assert!(matches!(read_photo_exif_bytes(b"not a jpeg"), Err(ExifError::JpegParseError)));
    let m = metadata(1.0, 1.0);
    assert!(matches!(embed_photo_metadata(b"\x00\x01", m), Err(ExifError::JpegParseError)));
}

#[test]
fn error_no_exif() {
    assert!(matches!(read_photo_exif_bytes(&sample_jpeg()), Err(ExifError::NoExifData)));
    assert!(matches!(read_exif_payload(&sample_jpeg()), Err(ExifError::NoExifData)));
}

#[test]
fn error_invalid_exif_format() {
    let out = embed_exif(&sample_jpeg(), b"XYZW1234").unwrap();
    assert!(matches!(read_photo_exif_bytes(&out), Err(ExifError::InvalidExifFormat)));
}

#[test]
fn error_tiff_parse() {
    let out = embed_exif(&sample_jpeg(), b"II\x2a\x00\xff\x00\x00\x00").unwrap();
    assert!(matches!(read_photo_exif_bytes(&out), Err(ExifError::TiffParseError)));
    assert!(matches!(decode_tiff(b"II".to_vec()), Err(ExifError::TiffParseError)));
}

#[test]
fn payload_header_is_stripped() {
    let mut p = b"Exif\0\0".to_vec();
    p.extend_from_slice(b"II\x2a\x00");
    assert_eq!(tiff_from_payload(p).unwrap(), b"II\x2a\x00".to_vec());
    assert_eq!(tiff_from_payload(b"MM\x00\x2a".to_vec()).unwrap(), b"MM\x00\x2a".to_vec());
    assert!(matches!(tiff_from_payload(b"M".to_vec()), Err(ExifError::InvalidExifFormat)));
}

#[test]
fn existing_exif_is_replaced() {
    let first = embed_exif(&sample_jpeg(), b"MM\x00\x2aold").unwrap();
    let second = embed_exif(&first, b"II\x2a\x00new").unwrap();
    assert_eq!(read_exif_payload(&second).unwrap(), b"II\x2a\x00new".to_vec());
}

#[test]
fn datetime_text_of_timestamp() {
    assert_eq!(format_timestamp(1700000000).unwrap(), b"2023:11:14 22:13:20".to_vec());
    assert_eq!(format_timestamp(0).unwrap(), b"1970:01:01 00:00:00".to_vec());
    assert_eq!(format_timestamp(-1).unwrap(), b"1969:12:31 23:59:59".to_vec());
    assert_eq!(format_timestamp(i64::MAX), None);
}

#[test]
fn datetime_read_back() {
    let mut m = metadata(1.0, 1.0);
    m.captured_at = 951782400; // 2000-02-29 00:00:00
    let (out, _) = embed_photo_metadata(&sample_jpeg(), m).unwrap();
    assert_eq!(read_photo_exif_bytes(&out).unwrap().captured_at, 951782400);
}

#[test]
fn provenance_comment_bytes() {
    let c = make_provenance_comment("a\"b", "x").unwrap();
    assert_eq!(c, b"ASCII\0\0\0{\"location_source\":\"a\\\"b\",\"bearing_source\":\"x\"}".to_vec());
    assert_eq!(read_provenance_comment(&c).unwrap(), (String::from("a\"b"), String::from("x")));
    assert_eq!(read_provenance_comment(b"ASCII\0\0\0plain note"), None);
    assert_eq!(read_provenance_comment(b"ASCII\0\0\0{\"location_source\":\"a\"}"), None);
    assert_eq!(read_provenance_comment(b"ASCII\0\0\0\xff\xfe"), None);
}

#[test]
fn long_provenance_is_truncated() {
    let long = "s".repeat(2000);
    let c = make_provenance_comment(&long, "manual").unwrap();
    assert_eq!(c.len(), 8 + 1000);
    let mut m = metadata(1.0, 1.0);
    m.location_source = long;
    let (out, _) = embed_photo_metadata(&sample_jpeg(), m).unwrap();
    let back = read_photo_exif_bytes(&out).unwrap();
    assert_eq!(back.location_source, "unknown");
    assert_eq!(back.bearing_source, "unknown");
}

#[test]
fn empty_builder_layout() {
    let seg = ExifBuilder::new().build();
    assert_eq!(seg, b"II\x2a\x00\x08\x00\x00\x00\x00\x00\x00\x00\x00\x00".to_vec());
}

#[test]
fn builder_replaces_repeated_tag() {
    let mut b = ExifBuilder::new();
    b.add_orientation(3);
    b.add_orientation(8);
    let seg = b.build();
    assert_eq!(u16_at(&seg, 8), 1);
    assert_eq!(u16_at(&seg, 10), 0x0112);
    assert_eq!(u16_at(&seg, 18), 8);
}

#[test]
fn sensor_bearing_sources() {
    assert!(is_sensor_bearing_source("Sensor"));
    assert!(is_sensor_bearing_source("TAURI-COMPASS"));
    assert!(is_sensor_bearing_source("enhanced_fusion"));
    assert!(is_sensor_bearing_source("Magnetometer"));
    assert!(!is_sensor_bearing_source("manual"));
    assert!(!is_sensor_bearing_source(""));
    assert!(!mentions_sensor("SENSOR"));
    assert!(mentions_sensor("gyroscope"));
}

#[test]
fn final_bearing_choice() {
    let found = BearingLookup { success: true, found: Some(true), true_heading: Some(12345) };
    assert_eq!(determine_final_bearing(Some(100), &Some(found)), Some(12345));
    let missing = BearingLookup { success: true, found: Some(false), true_heading: Some(1) };
    assert_eq!(determine_final_bearing(Some(100), &Some(missing)), Some(100));
    let failed = BearingLookup { success: false, found: Some(true), true_heading: Some(1) };
    assert_eq!(determine_final_bearing(None, &Some(failed)), None);
    let no_heading = BearingLookup { success: true, found: Some(true), true_heading: None };
    assert_eq!(determine_final_bearing(Some(7), &Some(no_heading)), Some(7));
    assert_eq!(determine_final_bearing(Some(7), &None), Some(7));
    assert_eq!(bearing_lookup_time(1700000000), Some(1700000000000));
    assert_eq!(bearing_lookup_time(i64::MAX / 100), None);
}

#[test]
fn unwritable_time_falls_back_to_a_valid_text() {
    let t = exif_datetime_for(i64::MAX);
    assert_eq!(t.len(), 19);
    assert_eq!(t[4], b':');
    assert_eq!(t[10], b' ');
    assert_eq!(exif_datetime_for(1700000000), b"2023:11:14 22:13:20".to_vec());
}

#[test]
fn jpeg_without_room_for_exif() {
    // Start and end of image only: no segment to put the EXIF segment after.
    let bare = b"\xff\xd8\xff\xd9";
    assert!(matches!(embed_exif(bare, b"II\x2a\x00"), Err(ExifError::JpegParseError)));
    assert!(matches!(read_photo_exif_bytes(bare), Err(ExifError::NoExifData)));
}
