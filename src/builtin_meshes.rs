//! The built-in meshes of the Metal backend and where each sits in its
//! buffers.
use vstd::prelude::*;

verus! {

/// The index range and base vertex of one built-in mesh of the Metal backend.
#[derive(Clone, Copy, Debug, PartialEq, Eq, Structural)]
pub struct IndexBufferEntry {
    pub index_count: u32,
    pub index_offset: u32,
    pub vertex_offset: u32,
}

impl IndexBufferEntry {
    /// Builds the entry from buffer positions that fit in a `u32`.
    pub fn new(index_count: usize, index_offset: usize, vertex_offset: usize) -> (r: Self)
        requires
            index_count <= u32::MAX,
            index_offset <= u32::MAX,
            vertex_offset <= u32::MAX,
        ensures
            r.index_count == index_count,
            r.index_offset == index_offset,
            r.vertex_offset == vertex_offset,
    {
        IndexBufferEntry {
            index_count: index_count as u32,
            index_offset: index_offset as u32,
            vertex_offset: vertex_offset as u32,
        }
    }
}

/// The built-in meshes.
#[derive(Clone, Copy, Debug, PartialEq, Eq, Structural)]
pub enum Geometry {
    Plane,
    Cube,
    Sphere,
}

/// Where each built-in mesh sits in the buffers.
#[derive(Clone, Copy, Debug)]
pub struct GeometryOffsets {
    pub plane: IndexBufferEntry,
    pub cube: IndexBufferEntry,
    pub sphere: IndexBufferEntry,
}

impl GeometryOffsets {
    /// The entry of one built-in mesh.
    pub fn get(&self, geometry: Geometry) -> (r: IndexBufferEntry)
        ensures
            r == match geometry {
                Geometry::Plane => self.plane,
                Geometry::Cube => self.cube,
                Geometry::Sphere => self.sphere,
            },
    {
        match geometry {
            Geometry::Plane => self.plane,
            Geometry::Sphere => self.sphere,
            Geometry::Cube => self.cube,
        }
    }
}

} // verus!
