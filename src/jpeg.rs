use vstd::prelude::*;
use crate::error::ExifError;
use img_parts::jpeg::Jpeg;

verus! {

#[verifier::external_type_specification]
#[verifier::external_body]
pub struct ExJpeg(img_parts::jpeg::Jpeg);

#[verifier::external_type_specification]
#[verifier::external_body]
pub struct ExImgPartsError(img_parts::Error);

/// The JPEG that img_parts reads from some bytes, if it reads one.
pub uninterp spec fn jpeg_parse_of(bytes: Seq<u8>) -> Option<Jpeg>;

/// The bytes that img_parts writes for a JPEG.
pub uninterp spec fn jpeg_encoding_of(j: Jpeg) -> Seq<u8>;

/// The contents of the first EXIF segment of a JPEG, after its `Exif\0\0`
/// prefix.
pub uninterp spec fn jpeg_exif_of(j: Jpeg) -> Option<Seq<u8>>;

/// The number of segments of a JPEG.
pub uninterp spec fn jpeg_segment_count(j: Jpeg) -> nat;

/// Every segment's length fits the 16-bit length field that encoding writes.
pub uninterp spec fn jpeg_lengths_fit(j: Jpeg) -> bool;

/// Largest EXIF payload that fits one segment: the 16-bit segment length
/// counts itself (2 bytes) and the `Exif\0\0` prefix (6 bytes).
pub const MAX_EXIF_PAYLOAD: usize = 65527;

/// Relies on img_parts' `Jpeg::from_bytes`. Each segment it reads was given
/// by a 16-bit length field.
#[verifier::external_body]
fn parse_jpeg(bytes: &[u8]) -> (r: Result<Jpeg, img_parts::Error>)
    ensures
        r matches Ok(j) ==> jpeg_parse_of(bytes@) == Some(j) && jpeg_lengths_fit(j),
        r is Err ==> jpeg_parse_of(bytes@) is None,
{
    Jpeg::from_bytes(img_parts::Bytes::copy_from_slice(bytes))
}

/// Relies on img_parts' `ImageEXIF::exif` for a JPEG.
#[verifier::external_body]
fn jpeg_exif(j: &Jpeg) -> (r: Option<Vec<u8>>)
    ensures
        r matches Some(p) ==> jpeg_exif_of(*j) == Some(p@),
        r is None ==> jpeg_exif_of(*j) is None,
{
    img_parts::ImageEXIF::exif(j).map(|b| b.to_vec())
}

/// Relies on img_parts' `ImageEXIF::set_exif` with `None`, which only drops
/// the EXIF segments (none where `exif` finds none).
#[verifier::external_body]
fn remove_exif(j: &mut Jpeg)
    ensures
        jpeg_exif_of(*final(j)) is None,
        jpeg_lengths_fit(*old(j)) ==> jpeg_lengths_fit(*final(j)),
        jpeg_exif_of(*old(j)) is None ==> jpeg_segment_count(*final(j)) == jpeg_segment_count(
            *old(j),
        ),
{
    img_parts::ImageEXIF::set_exif(j, None)
}

/// Relies on img_parts' `Jpeg::segments`.
#[verifier::external_body]
fn segment_count(j: &Jpeg) -> (r: usize)
    ensures
        r == jpeg_segment_count(*j),
{
    j.segments().len()
}

/// Relies on img_parts' `ImageEXIF::set_exif` with a payload: with no EXIF
/// segment present it inserts one as the fourth segment, so it needs at least
/// three.
#[verifier::external_body]
fn insert_exif(j: &mut Jpeg, exif: &[u8])
    requires
        jpeg_exif_of(*old(j)) is None,
        jpeg_segment_count(*old(j)) >= 3,
    ensures
        jpeg_exif_of(*final(j)) == Some(exif@),
        jpeg_lengths_fit(*old(j)) && exif@.len() <= MAX_EXIF_PAYLOAD ==> jpeg_lengths_fit(
            *final(j),
        ),
{
    img_parts::ImageEXIF::set_exif(j, Some(img_parts::Bytes::copy_from_slice(exif)))
}

/// Relies on img_parts' `Jpeg::encoder` and `ImageEncoder::bytes`, which
/// write each segment's length in 16 bits.
#[verifier::external_body]
fn encode_jpeg(j: Jpeg) -> (r: Vec<u8>)
    requires
        jpeg_lengths_fit(j),
    ensures
        r@ == jpeg_encoding_of(j),
{
    j.encoder().bytes().to_vec()
}

/// The EXIF payload of a JPEG file, as it decides reading succeeds.
pub open spec fn exif_payload_of(jpeg: Seq<u8>) -> Result<Seq<u8>, ExifError> {
    match jpeg_parse_of(jpeg) {
        None => Err(ExifError::JpegParseError),
        Some(j) => match jpeg_exif_of(j) {
            None => Err(ExifError::NoExifData),
            Some(p) => Ok(p),
        },
    }
}

/// Finds the EXIF segment of a JPEG file and returns what follows its
/// `Exif\0\0` prefix.
pub fn read_exif_payload(jpeg: &[u8]) -> (r: Result<Vec<u8>, ExifError>)
    ensures
        r matches Ok(p) ==> exif_payload_of(jpeg@) == Ok::<Seq<u8>, ExifError>(p@),
        r matches Err(e) ==> exif_payload_of(jpeg@) == Err::<Seq<u8>, ExifError>(e),
{
    let j = match parse_jpeg(jpeg) {
        Ok(j) => j,
        Err(_) => return Err(ExifError::JpegParseError),
    };
    match jpeg_exif(&j) {
        Some(p) => Ok(p),
        None => Err(ExifError::NoExifData),
    }
}

/// Whether a JPEG file can take an EXIF segment whatever its other
/// segments: it reads as a JPEG with no EXIF segment and at least three
/// segments.
pub open spec fn takes_exif(jpeg: Seq<u8>) -> bool {
    jpeg_parse_of(jpeg) matches Some(j) && jpeg_exif_of(j) is None && jpeg_segment_count(j) >= 3
}

/// Replaces the EXIF segments of a JPEG file by one holding `exif`, keeping
/// every other segment, and writes the file out again. Fails with
/// `JpegParseError` where the input cannot be read as a JPEG or has fewer
/// than three segments besides its EXIF ones.
pub fn embed_exif(jpeg: &[u8], exif: &[u8]) -> (r: Result<Vec<u8>, ExifError>)
    requires
        exif@.len() <= MAX_EXIF_PAYLOAD,
    ensures
        jpeg_parse_of(jpeg@) is None ==> r == Err::<Vec<u8>, ExifError>(ExifError::JpegParseError),
        takes_exif(jpeg@) ==> r is Ok,
        r matches Err(e) ==> e == ExifError::JpegParseError,
        r matches Ok(out) ==> exists|j: Jpeg|
            jpeg_exif_of(j) == Some(exif@) && out@ == #[trigger] jpeg_encoding_of(j),
{
    let mut j = match parse_jpeg(jpeg) {
        Ok(j) => j,
        Err(_) => return Err(ExifError::JpegParseError),
    };
    remove_exif(&mut j);
    if segment_count(&j) < 3 {
        return Err(ExifError::JpegParseError);
    }
    insert_exif(&mut j, exif);
    let ghost jj = j;
    let out = encode_jpeg(j);
    assert(jpeg_exif_of(jj) == Some(exif@) && out@ == jpeg_encoding_of(jj));
    Ok(out)
}

} // verus!
