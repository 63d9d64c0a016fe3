use vstd::prelude::*;

verus! {

/// The per-node record of a material; the authoring payload is stored apart.
#[derive(Clone, Copy, PartialEq, Eq, Structural, Debug)]
pub struct RSGMaterialComponent {}

impl RSGMaterialComponent {
    /// The record of a newly attached material.
    pub fn new() -> (r: Self)
        ensures
            r == (RSGMaterialComponent {}),
    {
        RSGMaterialComponent {  }
    }
}

/// A matrix the renderer fills in for a material property.
#[derive(Clone, Copy, PartialEq, Eq, Structural, Debug)]
pub enum RSGMaterialBuiltinValue {
    ModelMatrix,
    ViewMatrix,
    ProjectionMatrix,
    ModelViewMatrix,
    ViewProjectionMatrix,
    ModelViewProjectionMatrix,
    NormalMatrix,
}

/// Which faces are culled.
#[derive(Clone, Copy, PartialEq, Eq, Structural, Debug)]
pub enum RSGMaterialCullMode {
    Disabled,
    Front,
    Back,
}

/// The winding of front faces.
#[derive(Clone, Copy, PartialEq, Eq, Structural, Debug)]
pub enum RSGMaterialFrontFace {
    CCW,
    CW,
}

/// A depth comparison.
#[derive(Clone, Copy, PartialEq, Eq, Structural, Debug)]
pub enum RSGMaterialCompareOp {
    Never,
    Less,
    Equal,
    LessOrEqual,
    Greater,
    NotEqual,
    GreaterOrEqual,
    Always,
}

/// Red channel bit of [`RSGMaterialColorMask`].
pub const COLOR_MASK_R: u32 = 0x01;

/// Green channel bit of [`RSGMaterialColorMask`].
pub const COLOR_MASK_G: u32 = 0x02;

/// Blue channel bit of [`RSGMaterialColorMask`].
pub const COLOR_MASK_B: u32 = 0x04;

/// Alpha channel bit of [`RSGMaterialColorMask`].
pub const COLOR_MASK_A: u32 = 0x08;

/// The color channels written, one bit each.
#[derive(Clone, Copy, PartialEq, Eq, Structural, Debug)]
pub struct RSGMaterialColorMask {
    pub bits: u32,
}

impl RSGMaterialColorMask {
    /// All four channels.
    pub fn all() -> (r: Self)
        ensures
            r.bits == COLOR_MASK_R | COLOR_MASK_G | COLOR_MASK_B | COLOR_MASK_A,
    {
        RSGMaterialColorMask { bits: COLOR_MASK_R | COLOR_MASK_G | COLOR_MASK_B | COLOR_MASK_A }
    }
}

/// A blend factor.
#[derive(Clone, Copy, PartialEq, Eq, Structural, Debug)]
pub enum RSGMaterialBlendFactor {
    Zero,
    One,
    SrcColor,
    OneMinusSrcColor,
    DstColor,
    OneMinusDstColor,
    SrcAlpha,
    OneMinusSrcAlpha,
    DstAlpha,
    OneMinusDstAlpha,
    ConstantColor,
    OneMinusConstantColor,
    ConstantAlpha,
    OneMinusConstantAlpha,
    SrcAlphaSaturate,
    Src1Color,
    OneMinusSrc1Color,
    Src1Alpha,
    OneMinusSrc1Alpha,
}

/// A blend operation.
#[derive(Clone, Copy, PartialEq, Eq, Structural, Debug)]
pub enum RSGMaterialBlendOp {
    Add,
    Subtract,
    ReverseSubtract,
    Min,
    Max,
}

/// Blending of a material's output into the target.
#[derive(Clone, Copy, PartialEq, Eq, Structural, Debug)]
pub struct RSGMaterialBlend {
    pub color_write: RSGMaterialColorMask,
    pub blend_enable: bool,
    pub src_color: RSGMaterialBlendFactor,
    pub dst_color: RSGMaterialBlendFactor,
    pub op_color: RSGMaterialBlendOp,
    pub src_alpha: RSGMaterialBlendFactor,
    pub dst_alpha: RSGMaterialBlendFactor,
    pub op_alpha: RSGMaterialBlendOp,
}

impl RSGMaterialBlend {
    /// Premultiplied-alpha blending over all channels, switched off.
    pub open spec fn spec_default() -> RSGMaterialBlend {
        RSGMaterialBlend {
            color_write: RSGMaterialColorMask {
                bits: COLOR_MASK_R | COLOR_MASK_G | COLOR_MASK_B | COLOR_MASK_A,
            },
            blend_enable: false,
            src_color: RSGMaterialBlendFactor::One,
            dst_color: RSGMaterialBlendFactor::OneMinusSrcAlpha,
            op_color: RSGMaterialBlendOp::Add,
            src_alpha: RSGMaterialBlendFactor::One,
            dst_alpha: RSGMaterialBlendFactor::OneMinusSrcAlpha,
            op_alpha: RSGMaterialBlendOp::Add,
        }
    }
}

impl Default for RSGMaterialBlend {
    fn default() -> (r: Self)
        ensures
            r == RSGMaterialBlend::spec_default(),
    {
        RSGMaterialBlend {
            color_write: RSGMaterialColorMask::all(),
            blend_enable: false,
            src_color: RSGMaterialBlendFactor::One,
            dst_color: RSGMaterialBlendFactor::OneMinusSrcAlpha,
            op_color: RSGMaterialBlendOp::Add,
            src_alpha: RSGMaterialBlendFactor::One,
            dst_alpha: RSGMaterialBlendFactor::OneMinusSrcAlpha,
            op_alpha: RSGMaterialBlendOp::Add,
        }
    }
}

/// The fixed-function state a material is drawn with.
#[derive(Clone, Copy, PartialEq, Eq, Structural, Debug)]
pub struct RSGMaterialGraphicsState {
    pub depth_test: bool,
    pub depth_write: bool,
    pub depth_op: RSGMaterialCompareOp,
    pub cull_mode: RSGMaterialCullMode,
    pub front_face: RSGMaterialFrontFace,
    pub blend: RSGMaterialBlend,
}

impl Default for RSGMaterialGraphicsState {
    fn default() -> (r: Self)
        ensures
            r.depth_test,
            r.depth_write,
            r.depth_op == RSGMaterialCompareOp::Less,
            r.cull_mode == RSGMaterialCullMode::Back,
            r.front_face == RSGMaterialFrontFace::CCW,
            r.blend == RSGMaterialBlend::spec_default(),
    {
        RSGMaterialGraphicsState {
            depth_test: true,
            depth_write: true,
            depth_op: RSGMaterialCompareOp::Less,
            cull_mode: RSGMaterialCullMode::Back,
            front_face: RSGMaterialFrontFace::CCW,
            blend: RSGMaterialBlend::default(),
        }
    }
}

impl RSGMaterialGraphicsState {
    /// The state actually used for a node whose inherited opacity is below one when
    /// `translucent` holds. A translucent node, or one that already blends, writes no
    /// depth; a translucent node that did not blend gets premultiplied-alpha blending.
    pub fn effective(&self, translucent: bool) -> (r: Self)
        ensures
            !translucent && !self.blend.blend_enable ==> r == *self,
            self.blend.blend_enable ==> r == (RSGMaterialGraphicsState {
                depth_write: false,
                ..*self
            }),
            translucent && !self.blend.blend_enable ==> r == (RSGMaterialGraphicsState {
                depth_write: false,
                blend: RSGMaterialBlend { blend_enable: true, ..RSGMaterialBlend::spec_default() },
                ..*self
            }),
    {
        let mut state = *self;
        if translucent || state.blend.blend_enable {
            state.depth_write = false;
            if !state.blend.blend_enable {
                state.blend = RSGMaterialBlend::default();
                state.blend.blend_enable = true;
            }
        }
        state
    }
}

/// Whether a node is drawn in the opaque pass: its inherited opacity is not below
/// one (`translucent` is false) and its material, if any, does not blend.
pub fn is_opaque(translucent: bool, material: Option<&RSGMaterialGraphicsState>) -> (r: bool)
    ensures
        r == (!translucent && match material {
            Some(m) => !m.blend.blend_enable,
            None => true,
        }),
{
    if translucent {
        return false;
    }
    match material {
        Some(m) => !m.blend.blend_enable,
        None => true,
    }
}

} // verus!
