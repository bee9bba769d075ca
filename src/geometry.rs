//! Where a piece of geometry sits inside the shared index and vertex buffers.
use vstd::prelude::*;

verus! {

/// The index and vertex ranges of one mesh inside the shared GPU buffers.
#[derive(Clone, Copy, Debug, PartialEq, Eq, Structural)]
pub struct GeometryOffsets {
    pub index_offset: u32,
    pub index_count: u32,
    pub vertex_offset: u32,
    pub vertex_count: u32,
}

impl GeometryOffsets {
    /// Builds the descriptor from buffer positions, each of which must fit in
    /// a `u32`, the width the GPU draw commands take.
    pub fn new(
        index_offset: usize,
        index_count: usize,
        vertex_offset: usize,
        vertex_count: usize,
    ) -> (r: Self)
        requires
            index_offset <= u32::MAX,
            index_count <= u32::MAX,
            vertex_offset <= u32::MAX,
            vertex_count <= u32::MAX,
        ensures
            r.index_offset == index_offset,
            r.index_count == index_count,
            r.vertex_offset == vertex_offset,
            r.vertex_count == vertex_count,
    {
        GeometryOffsets {
            index_offset: index_offset as u32,
            index_count: index_count as u32,
            vertex_offset: vertex_offset as u32,
            vertex_count: vertex_count as u32,
        }
    }
}

} // verus!
