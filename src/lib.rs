//! Geotagging metadata for photographs, stored as an EXIF (TIFF) segment
//! inside a JPEG file.
//!
//! Angles, distances and other real-valued quantities are held as integers
//! in fixed units, so that every conversion the library performs is exact:
//! coordinates in hundredths of an arc-second, bearings in hundredths of a
//! degree, lengths in millimetres and times in whole seconds.
//!
//! - `metadata`: the record and its normalization.
//! - `tiff`: directory entries and the byte layout of a TIFF structure.
//! - `encoder`: the builder that turns a record into an EXIF segment.
//! - `jpeg`: finding and replacing the EXIF segment of a JPEG file.
//! - `decoder`: reading a record back from a JPEG file.
//! - `guarantees`: what every written segment satisfies.

pub mod bearing;
pub mod datetime;
pub mod decoder;
pub mod encoder;
pub mod error;
pub mod guarantees;
pub mod jpeg;
pub mod metadata;
pub mod models;
pub mod photo;
pub mod provenance;
pub mod tiff;

pub use bearing::{determine_final_bearing, is_sensor_bearing_source, BearingLookup};
pub use decoder::read_photo_exif_bytes;
pub use encoder::{create_exif_segment_structured, ExifBuilder};
pub use error::ExifError;
pub use metadata::{validate_orientation_code, validate_photo_metadata, PhotoMetadata};
pub use photo::embed_photo_metadata;
