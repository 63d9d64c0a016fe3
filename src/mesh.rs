use vstd::prelude::*;

verus! {

/// The type of one vertex attribute.
#[derive(Clone, Copy, PartialEq, Eq, Structural, Debug)]
pub enum RSGMeshVertexInputType {
    Float,
    Vec2,
    Vec3,
    Vec4,
    Int,
    Int2,
    Int3,
    Int4,
    Mat2,
    Mat3,
    Mat4,
}

/// A vertex attribute: `[index,] type, view index, offset`.
#[derive(Clone, Copy, PartialEq, Eq, Structural, Debug)]
pub enum RSGMeshVertexInput {
    Position(RSGMeshVertexInputType, u32, usize),
    Normal(RSGMeshVertexInputType, u32, usize),
    Tangent(RSGMeshVertexInputType, u32, usize),
    Color(u32, RSGMeshVertexInputType, u32, usize),
    TexCoord(u32, RSGMeshVertexInputType, u32, usize),
}

/// A range of a vertex or index buffer.
#[derive(Clone, Copy, PartialEq, Eq, Structural, Debug)]
pub struct RSGMeshBufferView {
    pub buffer_id: u32,
    pub offset: usize,
    pub size: usize,
    pub stride: usize,
}

/// An index buffer range and its index width.
#[derive(Clone, Copy, PartialEq, Eq, Structural, Debug)]
pub enum RSGMeshIndexBufferView {
    U16(RSGMeshBufferView),
    U32(RSGMeshBufferView),
}

/// How vertices form primitives.
#[derive(Clone, Copy, PartialEq, Eq, Structural, Debug)]
pub enum RSGMeshTopology {
    Triangles,
    TriangleStrip,
    Lines,
    LineStrip,
    Points,
}

} // verus!
