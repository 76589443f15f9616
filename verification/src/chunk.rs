//! Terrain chunks: their lifecycle states and the decisions the terrain
//! systems take on them each frame (which chunk to generate, what a GPU
//! readback means for a chunk, which chunks to recycle).
use vstd::prelude::*;

verus! {

/// Marks the camera entity around which chunks are generated.
#[derive(Clone, Copy, PartialEq, Eq, Structural, Debug)]
pub struct ChunkViewer {}

impl ChunkViewer {
    pub fn default() -> (r: ChunkViewer) {
        ChunkViewer {}
    }
}

/// State of the mesh that is read back to the CPU for collisions.
#[derive(Clone, Copy, PartialEq, Eq, Structural, Debug)]
pub enum MeshReadbackState {
    /// The transfer has yet to begin.
    PendingReadbackStart,
    /// The transfer begun; the data is awaited.
    PendingReadbackData,
    /// The mesh is on the CPU.
    Complete,
}

/// State of the indirect mesh of a chunk.
#[derive(Clone, Copy, PartialEq, Eq, Structural, Debug)]
pub enum ChunkState {
    /// Unused, ready to be given to a new octree node.
    Free,
    /// Must be regenerated, though it may not be yet.
    Dirty,
    /// Waiting for the compute shaders to generate its mesh.
    Pending,
    /// Waiting for the readback of its mesh ranges to begin.
    PendingReadbackStart,
    /// Waiting for the readback of its mesh ranges to complete.
    PendingReadbackData,
    /// The mesh was generated; `empty` when it has no triangles.
    Generated { empty: bool },
    /// The chunk must be removed once the chunks that replace it are done.
    PendingRemoval,
}

/// `finished` of a state: generated or free.
pub open spec fn state_finished(s: ChunkState) -> bool {
    s is Generated || s is Free
}

/// `pending` of a state: somewhere between dirty and the end of its readback.
pub open spec fn state_pending(s: ChunkState) -> bool {
    s is Dirty || s is Pending || s is PendingReadbackStart || s is PendingReadbackData
}

impl ChunkState {
    /// Whether the chunk is done: generated or free.
    pub fn finished(&self) -> (r: bool)
        ensures
            r == state_finished(*self),
    {
        match self {
            ChunkState::Generated { .. } | ChunkState::Free => true,
            _ => false,
        }
    }

    /// Whether the chunk is on its way to a mesh.
    pub fn pending(&self) -> (r: bool)
        ensures
            r == state_pending(*self),
    {
        match self {
            ChunkState::Dirty
            | ChunkState::Pending
            | ChunkState::PendingReadbackStart
            | ChunkState::PendingReadbackData => true,
            _ => false,
        }
    }
}

/// Law: no chunk state is both finished and pending.
pub proof fn law_finished_excludes_pending(s: ChunkState)
    ensures
        !(state_finished(s) && state_pending(s)),
{
}

/// `a / b` rounded up.
pub open spec fn spec_ceil_div(a: nat, b: nat) -> nat
    recommends
        b > 0,
{
    ((a + b - 1) as int / b as int) as nat
}

/// The number of sub-allocations a mesh needs: enough for its vertices and
/// enough for its triangles.
pub open spec fn sub_allocations_used(count: (u32, u32), vps: u32, tps: u32) -> nat {
    let v = spec_ceil_div(count.0 as nat, vps as nat);
    let t = spec_ceil_div(count.1 as nat, tps as nat);
    if v >= t {
        v
    } else {
        t
    }
}

/// `a / b` rounded up.
pub fn ceil_div(a: u32, b: u32) -> (r: u32)
    requires
        b >= 1,
    ensures
        r == spec_ceil_div(a as nat, b as nat),
{
    let q = a / b;
    if a % b == 0 {
        proof {
            assert(q == (a + b - 1) as int / (b as int)) by (nonlinear_arith)
                requires q == a / b, a % b == 0, b >= 1;
        }
        q
    } else {
        proof {
            assert(q + 1 == (a + b - 1) as int / (b as int)) by (nonlinear_arith)
                requires q == a / b, a % b != 0, b >= 1, a >= 0;
            assert(q < a) by (nonlinear_arith)
                requires q == a / b, a % b != 0, b >= 1, a >= 0;
        }
        q + 1
    }
}

/// A terrain chunk: where its mesh lives and how far along it is.
#[derive(Clone, Copy, Debug)]
pub struct Chunk {
    /// The memory allocation that holds the mesh.
    pub allocation: usize,
    /// The index of the chunk within its allocation.
    pub local_index: usize,
    /// The index of the chunk among all chunks.
    pub global_index: usize,
    /// The sub-allocation range `[start, end)` that holds the mesh.
    pub ranges: Option<(u32, u32)>,
    pub state: ChunkState,
    /// The octree node the chunk stands for, by its identifier.
    pub node: Option<u64>,
    /// Whether the chunk gets a collider from its read back mesh.
    pub collider: bool,
    pub mesh_readback_state: Option<MeshReadbackState>,
}

impl Chunk {
    /// The octree node the chunk stands for.
    pub fn node(&self) -> (r: Option<u64>)
        ensures
            r == self.node,
    {
        self.node
    }

    /// The current state.
    pub fn state(&self) -> (r: ChunkState)
        ensures
            r == self.state,
    {
        self.state
    }

    /// Forces the regeneration of the chunk by making it dirty, whatever its
    /// state; nothing else changes.
    pub fn regenerate(&mut self)
        ensures
            *final(self) == (Chunk { state: ChunkState::Dirty, ..*old(self) }),
    {
        self.state = ChunkState::Dirty;
    }

    /// Takes in the mesh counters read back from the GPU for this chunk: the
    /// vertex and triangle offsets and counts of its mesh, and the number of
    /// vertices and triangles one sub-allocation holds.
    ///
    /// The mesh occupies as many sub-allocations as its vertices or its
    /// triangles need, whichever is more, starting at the sub-allocation of
    /// its vertex offset. A chunk with a mesh becomes generated, gets that
    /// range and is returned for display as `(allocation, local_index)`;
    /// a chunk without one becomes generated and empty, with no range.
    pub fn finish_readback(
        &mut self,
        offset: (u32, u32),
        count: (u32, u32),
        vertices_per_sub_allocation: u32,
        triangles_per_sub_allocation: u32,
    ) -> (r: Option<(usize, usize)>)
        requires
            vertices_per_sub_allocation >= 1,
            triangles_per_sub_allocation >= 1,
            offset.0 <= u32::MAX - vertices_per_sub_allocation,
            offset.1 <= u32::MAX - triangles_per_sub_allocation,
            sub_allocations_used(count, vertices_per_sub_allocation, triangles_per_sub_allocation)
                + offset.0 / vertices_per_sub_allocation <= u32::MAX,
        ensures
            ({
                let used = sub_allocations_used(
                    count,
                    vertices_per_sub_allocation,
                    triangles_per_sub_allocation,
                );
                let start = offset.0 / vertices_per_sub_allocation;
                &&& final(self).state == ChunkState::Generated { empty: used == 0 }
                &&& final(self).ranges == (if used > 0 {
                    Some((start as u32, (start + used) as u32))
                } else {
                    None
                })
                &&& r == (if used > 0 {
                    Some((old(self).allocation, old(self).local_index))
                } else {
                    None
                })
                &&& *final(self) == (Chunk {
                    state: final(self).state,
                    ranges: final(self).ranges,
                    ..*old(self)
                })
            }),
    {
        let vertex_subs = ceil_div(count.0, vertices_per_sub_allocation);
        let triangle_subs = ceil_div(count.1, triangles_per_sub_allocation);
        let used = if vertex_subs >= triangle_subs {
            vertex_subs
        } else {
            triangle_subs
        };
        let start = offset.0 / vertices_per_sub_allocation;
        let solid = used > 0;
        self.state = ChunkState::Generated { empty: !solid };
        if solid {
            self.ranges = Some((start, used + start));
            Some((self.allocation, self.local_index))
        } else {
            self.ranges = None;
            None
        }
    }

    /// Records that the mesh of this chunk reached the CPU.
    pub fn complete_mesh_readback(&mut self)
        requires
            old(self).node is Some,
        ensures
            *final(self) == (Chunk {
                mesh_readback_state: Some(MeshReadbackState::Complete),
                ..*old(self)
            }),
    {
        self.mesh_readback_state = Some(MeshReadbackState::Complete);
    }

    /// The memory allocation that holds the mesh.
    pub fn allocation(&self) -> (r: usize)
        ensures
            r == self.allocation,
    {
        self.allocation
    }

    /// The sub-allocation range that holds the mesh.
    pub fn ranges(&self) -> (r: Option<(u32, u32)>)
        ensures
            r == self.ranges,
    {
        self.ranges
    }
}

} // verus!
