//! Plain records handed to the renderer.  Only the indirect-draw record
//! is part of this core; the float-valued vertex and instance layouts
//! belong to the rendering collaborator.

use vstd::prelude::*;

verus! {

/// Arguments of one indexed indirect draw call.
#[derive(Clone, Copy, PartialEq, Eq, Structural, Debug, Default)]
pub struct DrawIndexedIndirect {
    pub index_count: u32,
    /// The number of instances to draw.
    pub instance_count: u32,
    /// The base index within the index buffer.
    pub base_index: u32,
    /// The value added to the vertex index before indexing into the
    /// vertex buffer.
    pub vertex_offset: i32,
    /// The instance identity of the first instance to draw.
    pub base_instance: u32,
}

} // verus!
