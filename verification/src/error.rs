//! What can go wrong while a message is walked or its values are unpacked.

use vstd::prelude::*;

verus! {

/// The three kinds of section whose body is laid out by a numbered template.
#[derive(Debug, Clone, Copy, PartialEq, Eq, Structural, Hash)]
pub enum TemplateCategory {
    /// Grid definition, Section 3.
    Grid,
    /// Product definition, Section 4.
    Product,
    /// Data representation, Section 5.
    DataRepresentation,
}

/// Why the sections of a byte stream could not be laid out as a message.
#[derive(Debug, Clone, Copy, PartialEq, Eq)]
pub enum FormatError {
    /// The stream does not start with the letters `GRIB`.
    NotGrib,
    /// The edition octet is not 2.
    UnsupportedEdition,
    /// Fewer bytes are left than a field or a section needs.
    Truncated,
    /// The sections do not add up to the length that Section 0 declares.
    SizeMismatch,
    /// The sections come in an order that the format does not allow.
    MalformedStructure,
    /// A product definition comes before any grid definition.
    MissingGridDefinition,
    /// The bit-map indicator asks for a predefined bit map.
    UnsupportedFeature,
}

/// Why the values of a submessage could not be unpacked.
#[derive(Debug, Clone, Copy, PartialEq, Eq)]
pub enum DecodeError {
    /// A section or its bit stream ends before all values are read.
    Truncated,
    /// The section's template number is not one that this crate unpacks.
    UnsupportedTemplate(TemplateCategory, u16),
    /// The template is known but asks for something that is not implemented.
    UnsupportedFeature,
    /// The point counts or the packing parameters contradict each other.
    InvalidPacking,
}

} // verus!
