//! How the terrain splits its mesh memory: the length of the vertex and
//! triangle buffers of each allocation, and how many vertices and triangles
//! one sub-allocation holds.
use vstd::prelude::*;
use crate::settings::{is_next_pow2, smallest_pow2_at_least};

verus! {

/// The smallest power of two greater than or equal to `n`, as
/// `u32::next_power_of_two` gives it for an `n` whose answer fits in a `u32`.
fn u32_next_power_of_two(n: u32) -> (r: u32)
    requires
        n <= 0x8000_0000,
    ensures
        is_next_pow2(n as nat, r as nat),
{
    let p = smallest_pow2_at_least(n as u64);
    p as u32
}

/// The split of the terrain mesh memory.
#[derive(Clone, Copy, PartialEq, Eq, Structural, Debug)]
pub struct MemoryLayout {
    /// Vertices in the vertex buffer of each allocation.
    pub output_vertex_buffer_length: usize,
    /// Triangles in the triangle buffer of each allocation.
    pub output_triangle_buffer_length: usize,
    /// Vertices per sub-allocation.
    pub vertices_per_sub_allocation: u32,
    /// Triangles per sub-allocation.
    pub triangles_per_sub_allocation: u32,
}

/// The split of the mesh memory for a device that binds storage buffers of
/// at most `max_binding` bytes, in `sub_allocation_count` sub-allocations:
/// half as many 32 byte vertices and 12 byte triangles as one binding holds,
/// and for each sub-allocation the smallest power of two at least its share.
pub open spec fn layout_ok(layout: MemoryLayout, max_binding: u32, sub_allocation_count: usize) -> bool {
    let vertices = max_binding as nat / 32 / 2;
    let triangles = max_binding as nat / 12 / 2;
    &&& layout.output_vertex_buffer_length == vertices
    &&& layout.output_triangle_buffer_length == triangles
    &&& is_next_pow2(vertices / sub_allocation_count as nat, layout.vertices_per_sub_allocation as nat)
    &&& is_next_pow2(triangles / sub_allocation_count as nat, layout.triangles_per_sub_allocation as nat)
}

/// Splits the mesh memory (see `layout_ok`).
pub fn memory_layout(max_binding: u32, sub_allocation_count: usize) -> (r: MemoryLayout)
    requires
        sub_allocation_count >= 1,
    ensures
        layout_ok(r, max_binding, sub_allocation_count),
{
    let vertices: u32 = max_binding / 32 / 2;
    let triangles: u32 = max_binding / 12 / 2;
    let vertex_share: usize = (vertices as usize) / sub_allocation_count;
    let triangle_share: usize = (triangles as usize) / sub_allocation_count;
    proof {
        assert(vertex_share <= vertices) by (nonlinear_arith)
            requires vertex_share == (vertices as usize) / sub_allocation_count, sub_allocation_count >= 1;
        assert(triangle_share <= triangles) by (nonlinear_arith)
            requires triangle_share == (triangles as usize) / sub_allocation_count, sub_allocation_count >= 1;
    }
    MemoryLayout {
        output_vertex_buffer_length: vertices as usize,
        output_triangle_buffer_length: triangles as usize,
        vertices_per_sub_allocation: u32_next_power_of_two(vertex_share as u32),
        triangles_per_sub_allocation: u32_next_power_of_two(triangle_share as u32),
    }
}

/// The number of chunks the terrain keeps meshes for: a cube of
/// `2 * distance + 1` chunks a side, rounded up so that each of the
/// `allocations` holds as many.
pub open spec fn chunk_count(distance: int, allocations: int) -> int {
    let side = 2 * distance + 1;
    let n = side * side * side;
    ((n + allocations - 1) / allocations) * allocations
}

/// The sizes the terrain is built with.
#[derive(Clone, Copy, PartialEq, Eq, Structural, Debug)]
pub struct TerrainSizing {
    /// Vertices in the vertex buffer of each allocation.
    pub output_vertex_buffer_length: u32,
    /// Triangles in the triangle buffer of each allocation.
    pub output_triangle_buffer_length: u32,
    /// Chunk meshes and indirect draws.
    pub chunks: u32,
    /// Chunks in each allocation.
    pub chunks_per_allocation: usize,
    /// Vertices per sub-allocation.
    pub vertices_per_sub_allocation: u32,
    /// Triangles per sub-allocation.
    pub triangles_per_sub_allocation: u32,
    /// Work groups of mesh generation, four cells a side each.
    pub dispatch: u32,
}

/// The sizes of a terrain with chunks of `size` cells, seen `distance`
/// chunks away, split in `allocations`, on a device that binds storage
/// buffers of at most `max_binding` bytes: a vertex takes 16 bytes and a
/// triangle 12; each allocation is cut in 1024 sub-allocations of the
/// smallest power of two at least their share; the chunks are rounded up to
/// a multiple of the allocations.
pub open spec fn sizing_ok(r: TerrainSizing, max_binding: u32, distance: u32, allocations: usize, size: u32) -> bool {
    let vertices = max_binding as nat / 16;
    let triangles = max_binding as nat / 12;
    &&& r.output_vertex_buffer_length == vertices
    &&& r.output_triangle_buffer_length == triangles
    &&& r.chunks == chunk_count(distance as int, allocations as int)
    &&& r.chunks_per_allocation == r.chunks as int / allocations as int
    &&& is_next_pow2(vertices / 1024, r.vertices_per_sub_allocation as nat)
    &&& is_next_pow2(triangles / 1024, r.triangles_per_sub_allocation as nat)
    &&& r.dispatch == size / 4
}

/// Sizes a terrain (see `sizing_ok`), for a number of chunks that fits in
/// 32 bits.
pub fn terrain_sizing(max_binding: u32, distance: u32, allocations: usize, size: u32) -> (r: TerrainSizing)
    requires
        allocations >= 1,
        chunk_count(distance as int, allocations as int) <= u32::MAX,
    ensures
        sizing_ok(r, max_binding, distance, allocations, size),
{
    let vertices: u32 = max_binding / 4 / 4;
    let triangles: u32 = max_binding / 4 / 3;
    let side: u64 = 2 * (distance as u64) + 1;
    let ghost n: int = side * side * side;
    proof {
        let a = allocations as int;
        let c: int = (n + a - 1) / a;
        assert(n >= 1) by (nonlinear_arith)
            requires n == side * side * side, side >= 1;
        assert(c >= 1) by (nonlinear_arith)
            requires c == (n + a - 1) / a, n >= 1, a >= 1;
        assert(c * a >= a) by (nonlinear_arith)
            requires c >= 1, a >= 1;
        assert(c * a >= n) by (nonlinear_arith)
            requires c == (n + a - 1) / a, a >= 1;
        assert(side <= 1625) by (nonlinear_arith)
            requires side * side * side <= u32::MAX, side >= 1;
        assert(side * side <= 1625 * 1625) by (nonlinear_arith)
            requires side <= 1625;
        assert(side * side * side <= 1625 * 1625 * 1625) by (nonlinear_arith)
            requires side <= 1625, side * side <= 1625 * 1625;
    }
    let cube: u64 = side * side * side;
    let a: u64 = allocations as u64;
    let per: u64 = (cube + a - 1) / a;
    let chunks: u64 = per * a;
    let chunks_per_allocation: usize = (chunks / a) as usize;
    TerrainSizing {
        output_vertex_buffer_length: vertices,
        output_triangle_buffer_length: triangles,
        chunks: chunks as u32,
        chunks_per_allocation,
        vertices_per_sub_allocation: u32_next_power_of_two(vertices / 1024),
        triangles_per_sub_allocation: u32_next_power_of_two(triangles / 1024),
        dispatch: size / 4,
    }
}

} // verus!
