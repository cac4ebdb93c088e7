//! Decoder for GRIB2, the WMO binary format for gridded meteorological fields.
//!
//! A message is a run of length-prefixed sections. The crate walks the
//! sections of a message, groups them into submessages, unpacks the values of
//! one submessage and writes them out as raw 32-bit patterns.

pub mod assemble;
pub mod bitmap;
pub mod bits;
pub mod bytes;
pub mod cursor;
pub mod decode;
pub mod error;
pub mod grid;
pub mod packing;
pub mod run_length;
pub mod scan;
pub mod section;
pub mod simple;
pub mod template;
pub mod view;
