//! The texel formats and sample counts of camera targets.
use crate::texture::TexelFormat;
use vstd::prelude::*;

verus! {

/// How many samples each pixel of a render target takes.
#[derive(PartialEq, Eq, Structural, Clone, Copy, Debug)]
pub enum MSAASampleCount {
    X1,
    X2,
    X4,
}

/// The number of samples of `count`.
pub open spec fn sample_number(count: MSAASampleCount) -> u32 {
    match count {
        MSAASampleCount::X1 => 1,
        MSAASampleCount::X2 => 2,
        MSAASampleCount::X4 => 4,
    }
}

impl Default for MSAASampleCount {
    /// One sample per pixel.
    fn default() -> (d: Self)
        ensures
            d == MSAASampleCount::X1,
    {
        MSAASampleCount::X1
    }
}

impl From<MSAASampleCount> for u32 {
    fn from(count: MSAASampleCount) -> (n: u32) {
        match count {
            MSAASampleCount::X1 => 1,
            MSAASampleCount::X2 => 2,
            MSAASampleCount::X4 => 4,
        }
    }
}

impl vstd::std_specs::convert::FromSpecImpl<MSAASampleCount> for u32 {
    open spec fn obeys_from_spec() -> bool {
        true
    }

    open spec fn from_spec(count: MSAASampleCount) -> u32 {
        sample_number(count)
    }
}

impl MSAASampleCount {
    /// The number of samples per pixel.
    pub fn samples(self) -> (n: u32)
        ensures
            n == sample_number(self),
    {
        u32::from(self)
    }
}

/// The format of a camera's colour target: 16-bit floats for HDR, else 8-bit
/// normalized channels.
pub fn camera_color_format(hdr: bool) -> (f: TexelFormat)
    ensures
        f == (if hdr {
            TexelFormat::Rgba16Float
        } else {
            TexelFormat::Rgba8Unorm
        }),
{
    if hdr {
        TexelFormat::Rgba16Float
    } else {
        TexelFormat::Rgba8Unorm
    }
}

/// The format of a camera's depth target.
pub fn camera_depth_format() -> (f: TexelFormat)
    ensures
        f == TexelFormat::Depth24PlusStencil8,
{
    TexelFormat::Depth24PlusStencil8
}

} // verus!
