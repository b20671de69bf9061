//! The work of one frame, as a list of steps for the GPU side to carry out.
use vstd::prelude::*;

use crate::geometry::BBox;

verus! {

/// Which faces a pipeline discards.
#[derive(Clone, Copy, Debug, PartialEq, Eq, Structural)]
pub enum Cull {
    /// Front faces are discarded: back faces are drawn.
    Front,
    /// Back faces are discarded: front faces are drawn.
    Back,
}

/// One piece of GPU work, in the order the frame performs it.
#[derive(Clone, Copy, Debug, PartialEq, Eq, Structural)]
pub enum Step {
    /// Create the shared camera uniforms, the material layout and the two
    /// pipeline variants.
    CreateShared,
    /// Allocate the mesh's vertex buffer, material uniform and binding group.
    InitMesh { id: u32 },
    /// Upload the mesh's vertex buffer.
    UploadVertices { id: u32 },
    /// Upload the mesh's material uniform.
    UploadMaterial { id: u32 },
    /// Recompute the base translation and base zoom from this box.
    Reframe { bbox: BBox },
    /// Recompute and upload the view, normal and projection matrices.
    UpdateMatrices,
    /// Bind the mesh's resources and draw it with the pipeline of this cull mode.
    Draw { id: u32, cull: Cull },
}

} // verus!
