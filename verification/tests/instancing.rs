use chora::instancing::{
    atlas_binding_map, atlas_mapping, pipeline_action, plan_instance_upload, texture_index_map, PipelineAction,
    ShaderVariants,
};
use chora::render_pipeline::{
    instance_attributes, pipeline_texture_index_map, plan_layout, single_atlas_binding_map, texture_bindings,
    vertex_attributes, AttributeFormat, AttributeSpec, RenderPipelineFlags,
};
use chora::shader_parser::ParsedShader;

#[test]
fn a_source_registered_twice_keeps_its_id() {
    let mut v = ShaderVariants::new();
    assert_eq!(v.register("a".to_string()), 0);
    assert_eq!(v.register("b".to_string()), 1);
    assert_eq!(v.register("a".to_string()), 0);
    assert_eq!(v.len(), 2);
    assert_eq!(v.sources(), &vec!["a".to_string(), "b".to_string()]);
}

#[test]
fn pipeline_actions() {
    assert_eq!(pipeline_action(1, false), PipelineAction::CreateSimple);
    assert_eq!(pipeline_action(1, true), PipelineAction::Keep);
    assert_eq!(pipeline_action(2, true), PipelineAction::RegenerateMerged);
    assert_eq!(pipeline_action(3, false), PipelineAction::RegenerateMerged);
    assert_eq!(pipeline_action(0, false), PipelineAction::Keep);
}

#[test]
fn instance_uploads_grow_the_buffers() {
    assert!(plan_instance_upload(0, 0, false, 0).is_none());
    let grow = plan_instance_upload(2, 3, true, 1).unwrap();
    assert!(grow.reallocate_all);
    assert!(!grow.allocate_slot);
    assert_eq!(grow.capacity, 3);
    assert_eq!(grow.buffer_size, 192);
    assert_eq!(grow.byte_offset, 64);
    let fill = plan_instance_upload(3, 1, false, 2).unwrap();
    assert!(!fill.reallocate_all);
    assert!(fill.allocate_slot);
    assert_eq!(fill.capacity, 3);
    assert_eq!(fill.byte_offset, 128);
    let write = plan_instance_upload(3, 3, true, 0).unwrap();
    assert!(!write.reallocate_all && !write.allocate_slot);
}

#[test]
fn atlases_are_listed_once_in_first_use_order() {
    let (atlases, index) = atlas_mapping(&vec![7, 3, 7, 9, 3]);
    assert_eq!(atlases, vec![7, 3, 9]);
    assert_eq!(index, vec![0, 1, 0, 2, 1]);
    let (none, no_index) = atlas_mapping(&vec![]);
    assert!(none.is_empty() && no_index.is_empty());
}

#[test]
fn texture_indices_count_distinct_names_across_shaders() {
    let a = ParsedShader::parse("@group(1) @binding(0) var grass: texture_2d<f32>;\n@group(1) @binding(1) var dirt: texture_2d<f32>;\n");
    let b = ParsedShader::parse("@group(1) @binding(0) var dirt: texture_2d<f32>;\n@group(1) @binding(1) var sky: texture_cube<f32>;\n");
    let map = texture_index_map(&vec![a, b]);
    assert_eq!(map.len(), 3);
    assert_eq!(map.get("grass"), Some(&0));
    assert_eq!(map.get("dirt"), Some(&1));
    assert_eq!(map.get("sky"), Some(&2));
}

#[test]
fn atlas_bindings_follow_the_sprites() {
    let map = atlas_binding_map(&vec![0, 2, 1]);
    assert_eq!(map.len(), 3);
    assert_eq!(map.get(&0), Some(&0));
    assert_eq!(map.get(&1), Some(&2));
    assert_eq!(map.get(&2), Some(&1));
    assert_eq!(map.get(&3), None);
    let single = single_atlas_binding_map(2);
    assert_eq!(single.get(&1), Some(&0));
    assert_eq!(single.get(&2), None);
}

#[test]
fn a_pipeline_numbers_its_textures_in_declaration_order() {
    let shader = ParsedShader::parse("@group(1) @binding(5) var b: texture_2d<f32>;\n@group(1) @binding(4) var a: texture_2d<f32>;\n");
    let map = pipeline_texture_index_map(&shader);
    assert_eq!(map.get("b"), Some(&0));
    assert_eq!(map.get("a"), Some(&1));
}

#[test]
fn layouts_follow_the_flags() {
    let bare = plan_layout(RenderPipelineFlags::override_vertex_input());
    assert!(!bare.uniform_group);
    assert_eq!(bare.texture_group_index, 0);
    assert!(!bare.instance_buffer);
    let empty = plan_layout(RenderPipelineFlags::empty());
    assert_eq!(empty.texture_group_index, 0);
    let object = plan_layout(RenderPipelineFlags::allow_object_uniform());
    assert!(object.uniform_group);
    assert_eq!(object.texture_group_index, 1);
    assert!(object.instance_buffer);
    let camera = plan_layout(RenderPipelineFlags::allow_camera_uniform().union(RenderPipelineFlags::override_vertex_input()));
    assert_eq!(camera.texture_group_index, 1);
    assert!(!camera.instance_buffer);
}

#[test]
fn texture_groups_put_the_sampler_last() {
    let (slots, sampler) = texture_bindings(3, true);
    assert_eq!(slots, vec![0, 1, 2]);
    assert_eq!(sampler, Some(3));
    let (none, no_sampler) = texture_bindings(0, false);
    assert!(none.is_empty());
    assert_eq!(no_sampler, None);
}

#[test]
fn vertex_and_instance_attributes() {
    let v = vertex_attributes();
    assert_eq!(v[0], AttributeSpec { location: 0, offset: 0, format: AttributeFormat::Float32x3 });
    assert_eq!(v[1], AttributeSpec { location: 1, offset: 12, format: AttributeFormat::Float32x2 });
    let i = instance_attributes();
    let locations: Vec<u32> = i.iter().map(|a| a.location).collect();
    let offsets: Vec<u64> = i.iter().map(|a| a.offset).collect();
    assert_eq!(locations, vec![4, 5, 6, 7]);
    assert_eq!(offsets, vec![0, 16, 32, 48]);
}

#[test]
fn flags_combine_like_bits() {
    let all = RenderPipelineFlags::all();
    assert_eq!(all.bits(), 15);
    let f = RenderPipelineFlags::allow_world_uniform().union(RenderPipelineFlags::allow_object_uniform());
    assert_eq!(f.bits(), 5);
    assert!(f.contains(RenderPipelineFlags::allow_world_uniform()));
    assert!(!f.contains(RenderPipelineFlags::allow_camera_uniform()));
    assert_eq!(RenderPipelineFlags::from_bits_truncate(0xF6).bits(), 6);
    assert!(all.difference(all).is_empty());
    assert_eq!(RenderPipelineFlags::default(), RenderPipelineFlags::empty());
}
