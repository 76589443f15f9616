//! Smaller terrain types: chunk coordinates, edit modes, statistics, the
//! world data handed to systems, and which shader variant the terrain
//! material compiles.
use vstd::prelude::*;
use vstd::std_specs::cmp::PartialEqSpecImpl;
use crate::memory::MemoryLayout;

verus! {

/// Where a chunk lies: the corner of its cube, its side and its depth in
/// the octree.
#[derive(Clone, Copy, Debug)]
pub struct ChunkCoords {
    pub position: (i64, i64, i64),
    pub size: u64,
    pub depth: u8,
}

/// The center of a chunk: its corner moved by half its side on each axis.
pub open spec fn spec_center(c: ChunkCoords) -> (int, int, int) {
    let h = c.size as int / 2;
    (c.position.0 + h, c.position.1 + h, c.position.2 + h)
}

impl ChunkCoords {
    /// The coordinates of an octree node with corner `position`, half its
    /// side `half_extent` and depth `depth`.
    pub fn new(position: (i64, i64, i64), half_extent: u64, depth: u8) -> (r: ChunkCoords)
        requires
            half_extent <= u64::MAX / 2,
        ensures
            r == (ChunkCoords { position, size: (half_extent * 2) as u64, depth }),
    {
        ChunkCoords { position, size: half_extent * 2, depth }
    }

    /// The center of the chunk.
    pub fn center(&self) -> (r: (i64, i64, i64))
        requires
            self.size <= i64::MAX,
            i64::MIN <= spec_center(*self).0 <= i64::MAX,
            i64::MIN <= spec_center(*self).1 <= i64::MAX,
            i64::MIN <= spec_center(*self).2 <= i64::MAX,
        ensures
            r.0 == spec_center(*self).0,
            r.1 == spec_center(*self).1,
            r.2 == spec_center(*self).2,
    {
        let h = (self.size as i64) / 2;
        (self.position.0 + h, self.position.1 + h, self.position.2 + h)
    }
}

impl PartialEq for ChunkCoords {
    /// Two coordinates are equal when their corners and depths are: the
    /// side follows from the depth.
    fn eq(&self, other: &Self) -> (r: bool) {
        self.position.0 == other.position.0 && self.position.1 == other.position.1 && self.position.2
            == other.position.2 && self.depth == other.depth
    }
}

impl PartialEqSpecImpl for ChunkCoords {
    open spec fn obeys_eq_spec() -> bool {
        true
    }

    open spec fn eq_spec(&self, other: &Self) -> bool {
        self.position == other.position && self.depth == other.depth
    }
}

/// Chunks of one size have the same corner exactly when they have the same
/// center: comparing corners and depths, as `==` does, is comparing centers
/// and depths wherever the depth fixes the size.
pub proof fn law_corner_equality_is_center_equality(a: ChunkCoords, b: ChunkCoords)
    requires
        a.size == b.size,
    ensures
        (a.position == b.position) <==> (spec_center(a) == spec_center(b)),
{
}

/// How a terrain edit changes the terrain.
#[derive(Clone, Copy, PartialEq, Eq, Structural, Debug)]
pub enum EditMode {
    /// The edit's shape is added to the terrain.
    Addition,
    /// The edit's shape is carved out of the terrain.
    Subtraction,
}

impl EditMode {
    /// The number that stands for the mode in a packed edit.
    pub fn packed(self) -> (r: u32)
        ensures
            r == (match self {
                EditMode::Addition => 1u32,
                EditMode::Subtraction => 2u32,
            }),
    {
        match self {
            EditMode::Addition => 1,
            EditMode::Subtraction => 2,
        }
    }
}

/// Statistics of the terrain.
#[derive(Clone, Copy, PartialEq, Eq, Structural, Debug)]
pub struct TerrainStats {
    pub max_chunks_generated: usize,
    pub max_chunks_deleted: usize,
    pub terrain_size: usize,
    pub worst_update_speed: u128,
    pub best_update_speed: u128,
}

impl TerrainStats {
    /// All statistics at zero.
    pub fn default() -> (r: TerrainStats)
        ensures
            r == (TerrainStats {
                max_chunks_generated: 0,
                max_chunks_deleted: 0,
                terrain_size: 0,
                worst_update_speed: 0,
                best_update_speed: 0,
            }),
    {
        TerrainStats {
            max_chunks_generated: 0,
            max_chunks_deleted: 0,
            terrain_size: 0,
            worst_update_speed: 0,
            best_update_speed: 0,
        }
    }
}

/// Data of the world that systems are handed: the main camera, the sky and
/// the render system, by their identifiers.
#[derive(Clone, Copy, PartialEq, Eq, Structural, Debug)]
pub struct CustomWorldData {
    pub main_camera_entity_id: u16,
    pub sky_entity_id: u16,
    pub render_system_id: u8,
}

impl CustomWorldData {
    /// All identifiers at zero.
    pub fn default() -> (r: CustomWorldData)
        ensures
            r == (CustomWorldData { main_camera_entity_id: 0, sky_entity_id: 0, render_system_id: 0 }),
    {
        CustomWorldData { main_camera_entity_id: 0, sky_entity_id: 0, render_system_id: 0 }
    }
}

/// The terrain material; its data lives in the terrain, as there is one
/// terrain per world.
#[derive(Clone, Copy, PartialEq, Eq, Structural, Debug)]
pub struct TerrainMaterial {}

/// The render pass a material is compiled for.
#[derive(Clone, Copy, PartialEq, Eq, Structural, Debug)]
pub enum PassType {
    Deferred,
    Shadow,
}

/// A preprocessor define of the terrain shaders.
#[derive(Clone, Copy, PartialEq, Eq, Structural, Debug)]
pub enum ShaderDefine {
    Submaterials,
    FlatColors,
    DerivedNormals,
    FlatNormals,
}

/// The rendering choices that select a terrain shader variant.
#[derive(Clone, Copy, PartialEq, Eq, Structural, Debug)]
pub struct MaterialOptions {
    pub submaterials: bool,
    pub flat_colors: bool,
    pub derived_normals: bool,
    pub flat_normals: bool,
}

/// The defines of the deferred terrain shader, in order: one for each
/// choice that is on.
pub open spec fn spec_defines(o: MaterialOptions) -> Seq<ShaderDefine> {
    (if o.submaterials { seq![ShaderDefine::Submaterials] } else { Seq::empty() }) + (if o.flat_colors {
        seq![ShaderDefine::FlatColors]
    } else {
        Seq::empty()
    }) + (if o.derived_normals { seq![ShaderDefine::DerivedNormals] } else { Seq::empty() }) + (
    if o.flat_normals {
        seq![ShaderDefine::FlatNormals]
    } else {
        Seq::empty()
    })
}

/// What the terrain material compiles for a pass: its vertex and fragment
/// modules, its defines, and for the deferred pass the lengths of the
/// vertex and triangle buffers as shader constants.
pub struct ShaderPlan {
    pub vertex_module: &'static str,
    pub fragment_module: &'static str,
    pub defines: Vec<ShaderDefine>,
    pub buffer_lengths: Option<(u32, u32)>,
}

impl TerrainMaterial {
    /// The name of a define in the shader source.
    pub fn define_name(d: ShaderDefine) -> (r: &'static str)
        ensures
            r@ == match d {
                ShaderDefine::Submaterials => "submaterials"@,
                ShaderDefine::FlatColors => "flatcolors"@,
                ShaderDefine::DerivedNormals => "derivednormals"@,
                ShaderDefine::FlatNormals => "flatnormals"@,
            },
    {
        match d {
            ShaderDefine::Submaterials => "submaterials",
            ShaderDefine::FlatColors => "flatcolors",
            ShaderDefine::DerivedNormals => "derivednormals",
            ShaderDefine::FlatNormals => "flatnormals",
        }
    }

    /// The shader variant for a pass: the terrain modules with the defines
    /// of the options for the deferred pass, the shadow module and an empty
    /// fragment module for the shadow pass.
    pub fn shader(pass: PassType, options: MaterialOptions, memory: &MemoryLayout) -> (r: ShaderPlan)
        ensures
            pass == PassType::Deferred ==> {
                &&& r.vertex_module@ == "engine/shaders/scene/terrain/terrain.vert"@
                &&& r.fragment_module@ == "engine/shaders/scene/terrain/terrain.frag"@
                &&& r.defines@ == spec_defines(options)
                &&& r.buffer_lengths == Some(
                    (memory.output_vertex_buffer_length as u32, memory.output_triangle_buffer_length as u32),
                )
            },
            pass == PassType::Shadow ==> {
                &&& r.vertex_module@ == "engine/shaders/scene/terrain/shadow.vert"@
                &&& r.fragment_module@ == "engine/shaders/common/empty.frag"@
                &&& r.defines@ == Seq::<ShaderDefine>::empty()
                &&& r.buffer_lengths is None
            },
    {
        match pass {
            PassType::Deferred => {
                let mut defines: Vec<ShaderDefine> = Vec::new();
                if options.submaterials {
                    defines.push(ShaderDefine::Submaterials);
                }
                if options.flat_colors {
                    defines.push(ShaderDefine::FlatColors);
                }
                if options.derived_normals {
                    defines.push(ShaderDefine::DerivedNormals);
                }
                if options.flat_normals {
                    defines.push(ShaderDefine::FlatNormals);
                }
                proof {
                    assert(defines@ =~= spec_defines(options));
                }
                ShaderPlan {
                    vertex_module: "engine/shaders/scene/terrain/terrain.vert",
                    fragment_module: "engine/shaders/scene/terrain/terrain.frag",
                    defines,
                    buffer_lengths: Some(
                        (memory.output_vertex_buffer_length as u32, memory.output_triangle_buffer_length as u32),
                    ),
                }
            },
            PassType::Shadow => ShaderPlan {
                vertex_module: "engine/shaders/scene/terrain/shadow.vert",
                fragment_module: "engine/shaders/common/empty.frag",
                defines: Vec::new(),
                buffer_lengths: None,
            },
        }
    }
}

/// Parameters of a terrain edit: the material it paints (all where none),
/// its color, and whether it adds to the terrain or carves it.
#[derive(Clone, Copy, Debug)]
pub struct EditParams {
    pub material: Option<u8>,
    pub color: (u8, u8, u8),
    pub union: bool,
}

/// The bits of a packed edit: the packed color in the top half, then the
/// shape type above a bit that is set for carving edits, then the material
/// (255 for none).
pub open spec fn spec_packed_params(packed_color: u16, shape_type: u8, union: bool, material: Option<u8>) -> u32 {
    let kind = ((shape_type as int * 16) % 256 + if union { 0int } else { 1int }) as u32;
    let m: u32 = match material {
        Some(x) => x as u32,
        None => 255,
    };
    (packed_color as u32 * 0x10000 + kind * 0x100 + m) as u32
}

impl EditParams {
    /// White, additive, with no material.
    pub fn default() -> (r: EditParams)
        ensures
            r == (EditParams { material: None, color: (255u8, 255u8, 255u8), union: true }),
    {
        EditParams { material: None, color: (255, 255, 255), union: true }
    }

    /// Packs the parameters in one number for the GPU, with the color
    /// already packed in 16 bits and the type of the edit's shape.
    pub fn convert(&self, packed_color: u16, shape_type: u8) -> (r: u32)
        ensures
            r == spec_packed_params(packed_color, shape_type, self.union, self.material),
    {
        let shifted: u8 = ((shape_type as u32 * 16) % 256) as u8;
        let kind: u8 = shifted | (if self.union { 0u8 } else { 1u8 });
        proof {
            assert(shifted % 2 == 0);
            assert(shifted | 0u8 == shifted) by (bit_vector);
            assert(shifted % 2 == 0 ==> shifted | 1u8 == shifted + 1) by (bit_vector);
        }
        let material: u32 = match self.material {
            Some(m) => m as u32,
            None => 255,
        };
        let rgb: u32 = (packed_color as u32) << 16;
        let mid: u32 = (kind as u32) << 8;
        proof {
            assert((packed_color as u32) << 16 == packed_color as u32 * 0x10000) by (bit_vector)
                requires packed_color <= 0xffff;
            assert((kind as u32) << 8 == kind as u32 * 0x100) by (bit_vector)
                requires kind <= 0xff;
            assert(rgb | mid | material == rgb + mid + material) by (bit_vector)
                requires
                    rgb == (packed_color as u32) << 16,
                    mid == (kind as u32) << 8,
                    material <= 0xff,
                    kind <= 0xff,
            ;
        }
        rgb | mid | material
    }
}

/// What the voxel generation does next, in the frame it is asked.
#[derive(Clone, Copy, PartialEq, Eq, Structural, Debug)]
pub enum VoxelStep {
    /// Nothing to generate.
    Idle,
    /// Start generating the voxels of the first chunk to generate.
    Start,
    /// The voxels are still generating: wait for a later frame.
    Wait,
    /// Read back the voxels of the first chunk to generate, which is then
    /// done.
    Finish,
}

/// The state of the voxel generation: whether voxels are being generated,
/// and since which frame.
#[derive(Clone, Copy, PartialEq, Eq, Structural, Debug)]
pub struct VoxelGeneration {
    pub voxels_generating: bool,
    pub last_frame_voxels_generated: u64,
}

impl VoxelGeneration {
    /// Decides the next step, for a frame where `chunks_to_generate` chunks
    /// wait: with none, nothing; with no voxels generating, their generation
    /// starts; while they generate, they are read back once `threshold`
    /// frames have passed since their start, and waited for before.
    pub fn step(&mut self, chunks_to_generate: usize, frame_count: u64, threshold: u64) -> (r: VoxelStep)
        ensures
            chunks_to_generate == 0 ==> r == VoxelStep::Idle && *final(self) == *old(self),
            chunks_to_generate > 0 && !old(self).voxels_generating ==> r == VoxelStep::Start
                && *final(self) == (VoxelGeneration {
                voxels_generating: true,
                last_frame_voxels_generated: frame_count,
            }),
            chunks_to_generate > 0 && old(self).voxels_generating && frame_count
                < old(self).last_frame_voxels_generated + threshold ==> r == VoxelStep::Wait
                && *final(self) == *old(self),
            chunks_to_generate > 0 && old(self).voxels_generating && frame_count
                >= old(self).last_frame_voxels_generated + threshold ==> r == VoxelStep::Finish
                && *final(self) == (VoxelGeneration {
                voxels_generating: false,
                last_frame_voxels_generated: 0,
            }),
    {
        if chunks_to_generate == 0 {
            return VoxelStep::Idle;
        }
        if !self.voxels_generating {
            self.voxels_generating = true;
            self.last_frame_voxels_generated = frame_count;
            return VoxelStep::Start;
        }
        let reached = frame_count as u128 >= (self.last_frame_voxels_generated as u128) + (threshold as u128);
        if reached {
            self.voxels_generating = false;
            self.last_frame_voxels_generated = 0;
            VoxelStep::Finish
        } else {
            VoxelStep::Wait
        }
    }
}

/// Whether the octree may be updated: no chunk entity waits for removal
/// and no chunk waits for generation.
pub fn octree_update_valid(entities_to_remove: usize, chunks_to_generate: usize) -> (r: bool)
    ensures
        r == (entities_to_remove == 0 && chunks_to_generate == 0),
{
    entities_to_remove == 0 && chunks_to_generate == 0
}

} // verus!
