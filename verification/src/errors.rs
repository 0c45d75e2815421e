//! The error taxonomy of the packing engine.

use vstd::prelude::*;

verus! {

/// Why a packing call failed. Every failure is terminal for the call; no
/// partial atlas is ever produced alongside an error.
#[derive(Clone, Copy, Debug, PartialEq, Eq, Structural)]
pub enum AtlasError {
    /// An input image could not be decoded (malformed base64 or PNG, or a
    /// degenerate zero-pixel image).
    DecodeError,
    /// No sprites were supplied.
    EmptyInput,
    /// No canvas size up to the ceiling accommodates the sprites at any
    /// scale factor of the fallback ladder.
    PackingInfeasible,
    /// The packing oracle returned a malformed placement (an internal
    /// invariant violation, surfaced instead of a panic).
    CompositionError,
    /// The finished canvas could not be serialized to PNG.
    EncodeError,
}

impl AtlasError {
    /// A single descriptive message, as callers see failures.
    pub fn message(&self) -> (r: String)
        ensures
            r@ == match self {
                AtlasError::DecodeError => "Failed to decode an input image"@,
                AtlasError::EmptyInput => "No images to pack"@,
                AtlasError::PackingInfeasible => "Images too large to pack even at 20% scale"@,
                AtlasError::CompositionError => "A placed sprite exceeds the canvas bounds"@,
                AtlasError::EncodeError => "Failed to encode the atlas image"@,
            },
    {
        match self {
            AtlasError::DecodeError => String::from_str("Failed to decode an input image"),
            AtlasError::EmptyInput => String::from_str("No images to pack"),
            AtlasError::PackingInfeasible => String::from_str(
                "Images too large to pack even at 20% scale",
            ),
            AtlasError::CompositionError => String::from_str(
                "A placed sprite exceeds the canvas bounds",
            ),
            AtlasError::EncodeError => String::from_str("Failed to encode the atlas image"),
        }
    }
}

} // verus!
