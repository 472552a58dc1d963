use vstd::prelude::*;

verus! {

/// The color space a buffer of three-channel pixels is expressed in.
#[derive(Debug, Clone, Copy, PartialEq, Eq, Structural)]
pub enum ColorSpace {
    Srgb,
    Lab,
}

} // verus!
