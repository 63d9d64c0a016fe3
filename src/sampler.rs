use vstd::prelude::*;

verus! {

/// Texel filtering.
#[derive(Clone, Copy, PartialEq, Eq, Structural, Debug)]
pub enum RSGSamplerFilter {
    Nearest,
    Linear,
}

/// Filtering between mipmap levels.
#[derive(Clone, Copy, PartialEq, Eq, Structural, Debug)]
pub enum RSGSamplerMipmapFilter {
    Disabled,
    Nearest,
    Linear,
}

/// Addressing outside the texture.
#[derive(Clone, Copy, PartialEq, Eq, Structural, Debug)]
pub enum RSGSamplerWrapMode {
    ClampToEdge,
    Repeat,
    MirroredRepeat,
}

/// How a texture is sampled.
#[derive(Clone, Copy, PartialEq, Eq, Structural, Debug)]
pub struct RSGSampler {
    mag_filter: RSGSamplerFilter,
    min_filter: RSGSamplerFilter,
    min_mipmap_filter: RSGSamplerMipmapFilter,
    wrap_mode: RSGSamplerWrapMode,
}

} // verus!
