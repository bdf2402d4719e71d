use vstd::prelude::*;

verus! {

/// Why a JPEG's metadata could not be read or written.
#[derive(Debug, Clone, Copy, PartialEq, Eq, Structural)]
pub enum ExifError {
    /// The input is not a JPEG that can be read or given an EXIF segment.
    JpegParseError,
    /// The JPEG has no EXIF segment.
    NoExifData,
    /// The EXIF segment starts neither with `Exif\0\0` nor with a TIFF byte
    /// order mark.
    InvalidExifFormat,
    /// The TIFF structure inside the EXIF segment is malformed.
    TiffParseError,
}

} // verus!
