use vstd::prelude::*;
use crate::datetime::text_for_timestamp;
use crate::encoder::{create_exif_segment_structured, exif_segment};
use crate::error::ExifError;
use crate::guarantees::lemma_segment_size;
use crate::jpeg::{embed_exif, jpeg_encoding_of, jpeg_exif_of, jpeg_parse_of, takes_exif};
use crate::metadata::{normalized, validate_photo_metadata, PhotoMetadata};
use img_parts::jpeg::Jpeg;

verus! {

/// Normalizes `metadata`, builds its EXIF segment and puts it into the JPEG
/// file `jpeg` in place of any EXIF segment there, keeping every other
/// segment. Returns the new file and the normalized record. Fails with
/// `JpegParseError` where `jpeg` cannot be read as a JPEG or has too few
/// segments to take one more.
pub fn embed_photo_metadata(jpeg: &[u8], metadata: PhotoMetadata) -> (r: Result<
    (Vec<u8>, PhotoMetadata),
    ExifError,
>)
    ensures
        jpeg_parse_of(jpeg@) is None ==> r is Err,
        takes_exif(jpeg@) ==> r is Ok,
        r matches Err(e) ==> e == ExifError::JpegParseError,
        r matches Ok((out, v)) ==> {
            &&& v == normalized(metadata)
            &&& exists|t: Seq<u8>, j: Jpeg|
                text_for_timestamp(v.captured_at as int, t) && jpeg_exif_of(j) == Some(
                    exif_segment(v, t),
                ) && out@ == #[trigger] jpeg_encoding_of(j) && #[trigger] t.len() == 19
        },
{
    let v = validate_photo_metadata(metadata);
    let segment = create_exif_segment_structured(&v);
    let ghost t = choose|t: Seq<u8>|
        text_for_timestamp(v.captured_at as int, t) && segment@ == exif_segment(v, t);
    proof {
        lemma_segment_size(v, t);
    }
    match embed_exif(jpeg, segment.as_slice()) {
        Ok(out) => {
            proof {
                let j = choose|j: Jpeg|
                    jpeg_exif_of(j) == Some(segment@) && out@ == #[trigger] jpeg_encoding_of(j);
                assert(text_for_timestamp(v.captured_at as int, t) && jpeg_exif_of(j) == Some(
                    exif_segment(v, t),
                ) && out@ == jpeg_encoding_of(j) && t.len() == 19);
            }
            Ok((out, v))
        },
        Err(e) => Err(e),
    }
}

} // verus!
