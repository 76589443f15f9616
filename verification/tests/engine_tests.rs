use engine_core::layout::{validate, HandleId, ResourceError};
use engine_core::memory::memory_layout;
use engine_core::settings::{default_rendering_mode, validate_settings, TerrainMemorySettings, TerrainRenderingLowPolyMode, TerrainRenderingMode, TerrainSettingsError};
use engine_core::systems::{System, SystemEvent, SystemManager};
use engine_core::terrain::{
    octree_update_valid, EditParams, VoxelGeneration, VoxelStep,
    ChunkCoords, CustomWorldData, EditMode, MaterialOptions, PassType, ShaderDefine, TerrainMaterial,
    TerrainStats,
};
use engine_core::viewport::{is_valid, AttachmentFormat, RawFramebufferLifeHint, Viewport};
use engine_core::volumetric::Volumetric;
use engine_core::texture::TextureType;

fn handle(type_id: u64, name: &str, mutable: bool) -> HandleId {
    HandleId { type_id, name: name.to_string(), mutable }
}

#[test]
fn layouts_refuse_a_resource_fetched_twice_mutably() {
    assert!(validate(&vec![handle(1, "A", true), handle(2, "B", true)]).is_ok());
    assert!(validate(&vec![handle(1, "A", false), handle(1, "A", false)]).is_ok());
    assert_eq!(
        validate(&vec![handle(1, "A", false), handle(1, "A", true)]),
        Err(ResourceError::Overlapping("A".to_string()))
    );
    assert_eq!(
        validate(&vec![handle(2, "B", false), handle(1, "A", true), handle(1, "A2", false)]),
        Err(ResourceError::Overlapping("A2".to_string()))
    );
    assert!(validate(&vec![]).is_ok());
}

#[test]
fn resource_error_messages() {
    assert_eq!(
        ResourceError::MissingResource("Time".to_string()).message(),
        "Tried fetching resource with name 'Time', but it currently does not exist in the world"
    );
    assert_eq!(
        ResourceError::Overlapping("Time".to_string()).message(),
        "Cannot access resource Time multiple times in the same get_mut() call"
    );
}

#[test]
fn memory_layout_splits_a_binding() {
    // 128 MiB bindings, 1024 sub-allocations.
    let l = memory_layout(134_217_728, 1024);
    assert_eq!(l.output_vertex_buffer_length, 2_097_152);
    assert_eq!(l.output_triangle_buffer_length, 5_592_405);
    assert_eq!(l.vertices_per_sub_allocation, 2048);
    assert_eq!(l.triangles_per_sub_allocation, 8192);
    let tiny = memory_layout(0, 1);
    assert_eq!(tiny.vertices_per_sub_allocation, 1);
}

#[test]
fn terrain_settings_are_checked_in_order() {
    let ok = TerrainMemorySettings::default();
    assert_eq!(ok.sub_allocation_count, 1024);
    assert_eq!(validate_settings(64, &ok), Ok(()));
    assert_eq!(validate_settings(8, &ok), Err(TerrainSettingsError::ChunkSizeTooSmall));
    assert_eq!(validate_settings(256, &ok), Err(TerrainSettingsError::ChunkSizeTooBig));
    assert_eq!(validate_settings(128, &ok), Err(TerrainSettingsError::ChunkSizeTooBig));
    assert_eq!(validate_settings(127, &ok), Err(TerrainSettingsError::ChunkSizeNotPowerOfTwo));
    assert_eq!(validate_settings(16, &ok), Ok(()));
    assert_eq!(validate_settings(48, &ok), Err(TerrainSettingsError::ChunkSizeNotPowerOfTwo));
    let bad = TerrainMemorySettings { allocation_count: 1, sub_allocation_count: 1000 };
    assert_eq!(validate_settings(64, &bad), Err(TerrainSettingsError::SubAllocationCountNotPowerOfTwo));
    assert_eq!(validate_settings(8, &bad), Err(TerrainSettingsError::ChunkSizeTooSmall));
    assert_eq!(TerrainSettingsError::ChunkSizeTooSmall.message(), "Given chunk size is too small (less than 16)");
    assert_eq!(default_rendering_mode(), TerrainRenderingMode::LowPoly(TerrainRenderingLowPolyMode::Averaged));
}

#[test]
fn systems_take_the_entities_they_fit() {
    let mut manager = SystemManager::new();
    let mut a = System::new();
    a.link_component(0b01);
    let mut b = System::new();
    b.link_component(0b10);
    assert_eq!(manager.add_system(a), 0);
    assert_eq!(manager.add_system(b), 1);
    assert_eq!(manager.get_system(1).unwrap().system_id, 1);
    assert!(manager.get_system(2).is_none());
    assert_eq!(manager.add_entity_to_systems(7, 0b01), vec![0]);
    assert_eq!(manager.add_entity_to_systems(8, 0b11), vec![0, 1]);
    assert_eq!(manager.systems[0].entities, vec![7, 8]);
    assert_eq!(manager.systems[1].entities, vec![8]);
    assert_eq!(manager.remove_entity_from_systems(8, 0b11), vec![0, 1]);
    assert_eq!(manager.systems[0].entities, vec![7]);
    assert!(manager.systems[1].entities.is_empty());
    manager.systems[0].enable();
    assert_eq!(manager.add_entity_to_systems(9, 0b11), vec![0, 1]);
    // Every system is disabled first, then their entities are removed.
    assert_eq!(
        manager.kill_systems(),
        vec![
            SystemEvent::Disabled(0),
            SystemEvent::Disabled(1),
            SystemEvent::EntityRemoved(0, 7),
            SystemEvent::EntityRemoved(0, 9),
            SystemEvent::EntityRemoved(1, 9),
        ]
    );
    assert!(!manager.systems[0].enabled);
    assert!(manager.systems[0].is_entity_valid(0b111));
    assert!(!manager.systems[1].is_entity_valid(0b01));
}

#[test]
fn removing_drops_the_first_occurrence() {
    let mut s = System::new();
    s.add_entity(3);
    s.add_entity(4);
    s.add_entity(3);
    s.remove_entity(3);
    assert_eq!(s.entities, vec![4, 3]);
}

#[test]
fn viewports_need_consistent_attachments() {
    assert!(!is_valid(&vec![]));
    assert!(is_valid(&vec![(AttachmentFormat::Color, (4, 4)), (AttachmentFormat::Depth, (4, 4)), (AttachmentFormat::Stencil, (4, 4))]));
    assert!(!is_valid(&vec![(AttachmentFormat::Depth, (4, 4)), (AttachmentFormat::Depth, (4, 4))]));
    assert!(!is_valid(&vec![(AttachmentFormat::Color, (4, 4)), (AttachmentFormat::Color, (4, 5))]));
    let v = Viewport::new(&vec![(AttachmentFormat::Color, (8, 6))], RawFramebufferLifeHint::default(), 12).unwrap();
    assert_eq!(v.size(), (8, 6));
    assert_eq!(v.hint(), RawFramebufferLifeHint::InDuration(1, 0));
    assert_eq!(v.name(), 12);
    assert!(Viewport::new(&vec![], RawFramebufferLifeHint::WhenDropped, 1).is_none());
}

#[test]
fn volumetric_textures_and_dispatches() {
    let mut v = Volumetric::default();
    assert!(!v.enabled);
    v.create_textures((1920, 1080), 64, 2);
    assert_eq!(v.sdf_tex.ttype, TextureType::Texture3D(64, 64, 64));
    assert_eq!(v.result_tex.ttype, TextureType::Texture2D(960, 540));
    assert_eq!(v.sdf_dispatch(), (16, 16, 16));
    assert_eq!(v.volumetric_dispatch(), None);
    v.enable();
    assert_eq!(v.volumetric_dispatch(), Some((60, 33, 1)));
    v.update_texture_resolution((640, 480));
    assert_eq!(v.depth_tex.ttype, TextureType::Texture2D(320, 240));
    v.disable();
    assert!(!v.enabled);
}

#[test]
fn terrain_small_types() {
    let c = ChunkCoords::new((0, 10, -4), 8, 2);
    assert_eq!(c.size, 16);
    assert_eq!(c.center(), (8, 18, 4));
    assert!(c == ChunkCoords { size: 99, ..c });
    assert!(c != ChunkCoords { depth: 3, ..c });
    // Of one size, another corner is another center.
    let moved = ChunkCoords::new((16, 10, -4), 8, 2);
    assert!(c != moved);
    assert_ne!(c.center(), moved.center());
    assert_eq!(EditMode::Addition.packed(), 1);
    assert_eq!(EditMode::Subtraction.packed(), 2);
    assert_eq!(TerrainStats::default().terrain_size, 0);
    assert_eq!(CustomWorldData::default().render_system_id, 0);
}

#[test]
fn terrain_material_shader_variants() {
    let memory = memory_layout(134_217_728, 1024);
    let options = MaterialOptions { submaterials: true, flat_colors: false, derived_normals: true, flat_normals: true };
    let plan = TerrainMaterial::shader(PassType::Deferred, options, &memory);
    assert_eq!(plan.vertex_module, "engine/shaders/scene/terrain/terrain.vert");
    assert_eq!(plan.defines, vec![ShaderDefine::Submaterials, ShaderDefine::DerivedNormals, ShaderDefine::FlatNormals]);
    assert_eq!(plan.buffer_lengths, Some((2_097_152, 5_592_405)));
    let shadow = TerrainMaterial::shader(PassType::Shadow, options, &memory);
    assert_eq!(shadow.fragment_module, "engine/shaders/common/empty.frag");
    assert!(shadow.defines.is_empty());
    assert_eq!(TerrainMaterial::define_name(ShaderDefine::FlatColors), "flatcolors");
}

#[test]
fn edit_params_pack_into_one_number() {
    let p = EditParams { material: Some(7), color: (1, 2, 3), union: true };
    assert_eq!(p.convert(0xABCD, 1), 0xABCD_1007);
    let carve = EditParams { union: false, ..p };
    assert_eq!(carve.convert(0, 1), 0x0000_1107);
    let d = EditParams::default();
    assert_eq!(d.color, (255, 255, 255));
    assert_eq!(d.convert(0xFFFF, 0), 0xFFFF_00FF);
    // Shape types past 15 lose their high bits.
    assert_eq!(d.convert(0, 17), 0x0000_10FF);
}

#[test]
fn voxel_generation_alternates_start_and_finish() {
    let mut g = VoxelGeneration { voxels_generating: false, last_frame_voxels_generated: 0 };
    assert_eq!(g.step(0, 10, 3), VoxelStep::Idle);
    assert_eq!(g.step(2, 10, 3), VoxelStep::Start);
    assert_eq!(g, VoxelGeneration { voxels_generating: true, last_frame_voxels_generated: 10 });
    // Within the threshold nothing is read back yet.
    assert_eq!(g.step(2, 11, 3), VoxelStep::Wait);
    assert_eq!(g.step(2, 12, 3), VoxelStep::Wait);
    assert_eq!(g, VoxelGeneration { voxels_generating: true, last_frame_voxels_generated: 10 });
    assert_eq!(g.step(2, 13, 3), VoxelStep::Finish);
    assert_eq!(g, VoxelGeneration { voxels_generating: false, last_frame_voxels_generated: 0 });
    let mut late = VoxelGeneration { voxels_generating: true, last_frame_voxels_generated: 10 };
    assert_eq!(late.step(1, 14, 3), VoxelStep::Finish);
    assert!(octree_update_valid(0, 0));
    assert!(!octree_update_valid(1, 0));
    assert!(!octree_update_valid(0, 2));
}
