use chora::instancing::{atlas_binding_map, merged_variant_shader, texture_index_map, try_merged_variant_shader};
use chora::render_pipeline::{pipeline_shader_code, try_pipeline_shader_code, RenderPipelineFlags};
use chora::shader_merger::{SampleRegion, ShaderMerger};
use chora::shader_parser::{Declaration, Function, ParsedShader};
use chora::shader_rewriter::ShaderRewriter;
use chora::str_map::StrMap;
use chora::text::replace_text;
use std::collections::HashMap;

#[test]
fn test_parse_function_() {
    let shader = r#"
@vertex
fn vs_main(@builtin(vertex_index) idx: u32, vertex: VertexInput, instance: InstanceInput) -> @builtin(position) vec4<f32> {}

fn dummy(idx: u32, vert: VertexInput, inst: InstanceInput) {}
"#;

    let parsed = ParsedShader::parse(shader);

    // Extract functions from declarations
    let functions: Vec<&Function> = parsed
        .declarations
        .iter()
        .filter_map(|d| if let Declaration::Function(f) = d { Some(f) } else { None })
        .collect();

    assert_eq!(functions.len(), 2);
    assert!(parsed.vertex_entry.is_some());

    {
        assert_eq!(functions[0].name, "vs_main");
        assert_eq!(functions[0].parameters.len(), 3);
        assert_eq!(functions[0].return_type, Some("@builtin(position)vec4<f32>".to_string()));

        assert_eq!(
            functions[0].parameters.get("idx").unwrap().location,
            Some("@builtin(vertex_index)".to_string())
        );
        assert_eq!(functions[0].parameters.get("vertex").unwrap().location, None);
        assert_eq!(functions[0].parameters.get("instance").unwrap().location, None);

        assert_eq!(functions[0].parameters.get("idx").unwrap().data_type, "u32");
        assert_eq!(functions[0].parameters.get("vertex").unwrap().data_type, "VertexInput");
        assert_eq!(functions[0].parameters.get("instance").unwrap().data_type, "InstanceInput");
    }

    {
        assert_eq!(functions[1].name, "dummy");
        assert_eq!(functions[1].parameters.len(), 3);
        assert_eq!(functions[1].return_type, None);

        assert_eq!(functions[1].parameters.get("idx").unwrap().location, None);
        assert_eq!(functions[1].parameters.get("vert").unwrap().location, None);
        assert_eq!(functions[1].parameters.get("inst").unwrap().location, None);

        assert_eq!(functions[1].parameters.get("idx").unwrap().data_type, "u32");
        assert_eq!(functions[1].parameters.get("vert").unwrap().data_type, "VertexInput");
        assert_eq!(functions[1].parameters.get("inst").unwrap().data_type, "InstanceInput");
    }
}

#[test]
fn test_parse_simple_shader() {
    let shader = r#"
@group(1) @binding(0) var my_texture: texture_2d<f32>;
@group(1) @binding(1) var my_sampler: sampler;

@vertex
fn vs_main(@builtin(vertex_index) idx: u32) -> @builtin(position) vec4<f32> {
    return vec4<f32>(0.0, 0.0, 0.0, 1.0);
}

@fragment
fn fs_main(@location(0) uv: vec2<f32>) -> @location(0) vec4<f32> {
    return textureSample(my_texture, my_sampler, uv);
}
"#;

    let parsed = ParsedShader::parse(shader);

    // Count globals from declarations
    let globals_count = parsed.declarations.iter().filter(|d| matches!(d, Declaration::Global(_))).count();
    assert_eq!(globals_count, 2);
    assert_eq!(parsed.texture_references.len(), 1);
    assert!(parsed.texture_references.contains_key("my_texture"));
    assert!(parsed.vertex_entry.is_some());
    assert!(parsed.fragment_entry.is_some());
}

#[test]
fn test_parse_multiple_textures() {
    let shader = r#"
@group(1) @binding(0) var texture_a: texture_2d<f32>;
@group(1) @binding(1) var texture_b: texture_2d<f32>;
@group(1) @binding(2) var texture_c: texture_2d<f32>;
@group(1) @binding(10) var my_sampler: sampler;

@fragment
fn fs_main() -> @location(0) vec4<f32> {
    return vec4<f32>(1.0);
}
"#;

    let parsed = ParsedShader::parse(shader);

    assert_eq!(parsed.texture_references.len(), 3);
    assert_eq!(parsed.texture_references.get("texture_a"), Some(&0));
    assert_eq!(parsed.texture_references.get("texture_b"), Some(&1));
    assert_eq!(parsed.texture_references.get("texture_c"), Some(&2));
}

#[test]
fn test_rewrite_simple_shader() {
    let shader_src = r#"
@group(1) @binding(0) var my_texture: texture_2d<f32>;
@group(1) @binding(1) var my_sampler: sampler;

@vertex
fn vs_main() {
    return vec4<f32>(vertex.position, 1.0);
}

@fragment
fn fs_main(@location(0) uv: vec2<f32>) -> @location(0) vec4<f32> {
    return textureSample(my_texture, my_sampler, uv);
}
"#;

    let parsed = ParsedShader::parse(shader_src);

    let mut texture_index_map = StrMap::new();
    texture_index_map.insert("my_texture".to_string(), 0);

    let mut atlas_binding_map = HashMap::new();
    atlas_binding_map.insert(0, 0); // texture 0 is in atlas 0

    let rewritten =
        ShaderRewriter::rewrite_shader(&parsed, RenderPipelineFlags::all(), &texture_index_map, &atlas_binding_map);

    // Should replace textureSample(my_texture with textureSample0(atlas_0
    assert!(rewritten.contains("textureSample0(atlas_0"));
    assert!(rewritten.contains("WorldUniform"));
    assert!(rewritten.contains("CameraUniform"));
    assert!(!rewritten.contains("textureSample(my_texture"));

    // Should keep sampler binding
    assert!(rewritten.contains("my_sampler"));

    // Should not have texture binding
    assert!(!rewritten.contains("var my_texture"));
}

#[test]
fn test_vertex_and_instance_input_translation() {
    let shader_src = r#"
@vertex
fn vs_main(@builtin(vertex_index) idx: u32, vertex: VertexInput, instance: InstanceInput) -> @builtin(position) vec4<f32> {
    return vec4<f32>(0.0, 0.0, 0.0, 1.0);
}
"#;

    let parsed = ParsedShader::parse(shader_src);

    let texture_index_map = StrMap::new();
    let atlas_binding_map = HashMap::new();

    // Test 1: Default flags - should add vertex translation but not instance
    let rewritten =
        ShaderRewriter::rewrite_shader(&parsed, RenderPipelineFlags::empty(), &texture_index_map, &atlas_binding_map);

    // Should include vertex input structures
    assert!(rewritten.contains("RawVertexInput"));
    assert!(rewritten.contains("VertexInput"));
    assert!(rewritten.contains("translate_raw_vertex_input"));

    // Should have raw_vertex parameter
    assert!(rewritten.contains("raw_vertex"));

    // Should append vertex translation code
    assert!(rewritten.contains("let vertex = translate_raw_vertex_input(raw_vertex)"));

    // Should NOT include instance input structures
    assert!(!rewritten.contains("RawInstanceInput"));
    assert!(!rewritten.contains("translate_raw_instance_input"));
    assert!(rewritten.contains("InstanceInput"));

    // Should NOT have raw_instance parameter
    assert!(!rewritten.contains("raw_instance"));

    // Should NOT append instance translation code
    assert!(!rewritten.contains("let instance = translate_raw_instance_input(raw_instance)"));

    // Test 2: With ALLOW_OBJECT_UNIFORM - should add both vertex and instance
    let rewritten = ShaderRewriter::rewrite_shader(
        &parsed,
        RenderPipelineFlags::allow_object_uniform(),
        &texture_index_map,
        &atlas_binding_map,
    );

    // Should include both vertex and instance input structures
    assert!(rewritten.contains("RawVertexInput"));
    assert!(rewritten.contains("VertexInput"));
    assert!(rewritten.contains("RawInstanceInput"));
    assert!(rewritten.contains("InstanceInput"));

    // Should have both parameters
    assert!(rewritten.contains("raw_vertex"));
    assert!(rewritten.contains("raw_instance"));

    // Should append both translation codes
    assert!(rewritten.contains("let vertex = translate_raw_vertex_input(raw_vertex)"));
    assert!(rewritten.contains("let instance = translate_raw_instance_input(raw_instance)"));

    // Test 3: With OVERRIDE_VERTEX_INPUT - should not add vertex translation
    let rewritten = ShaderRewriter::rewrite_shader(
        &parsed,
        RenderPipelineFlags::override_vertex_input(),
        &texture_index_map,
        &atlas_binding_map,
    );

    // Should NOT include vertex input structures
    assert!(!rewritten.contains("RawVertexInput"));
    assert!(!rewritten.contains("translate_raw_vertex_input"));
    assert!(rewritten.contains("VertexInput"));

    // Should NOT have raw_vertex parameter
    assert!(!rewritten.contains("raw_vertex"));

    // Should NOT append vertex translation code
    assert!(!rewritten.contains("let vertex = translate_raw_vertex_input(raw_vertex)"));

    // Test 4: With OVERRIDE_VERTEX_INPUT and ALLOW_OBJECT_UNIFORM - should only add instance
    let rewritten = ShaderRewriter::rewrite_shader(
        &parsed,
        RenderPipelineFlags::override_vertex_input().union(RenderPipelineFlags::allow_object_uniform()),
        &texture_index_map,
        &atlas_binding_map,
    );

    // Should NOT include vertex input structures
    assert!(!rewritten.contains("RawVertexInput"));
    assert!(rewritten.contains("VertexInput"));

    // Should include instance input structures
    assert!(rewritten.contains("RawInstanceInput"));
    assert!(rewritten.contains("InstanceInput"));

    // Should have raw_instance but not raw_vertex
    assert!(!rewritten.contains("raw_vertex"));
    assert!(rewritten.contains("raw_instance"));

    // Should append instance translation but not vertex
    assert!(!rewritten.contains("let vertex = translate_raw_vertex_input(raw_vertex)"));
    assert!(rewritten.contains("let instance = translate_raw_instance_input(raw_instance)"));
}

fn region(binding: u32, new_binding: u32, min: (f32, f32), max: (f32, f32)) -> SampleRegion {
    SampleRegion {
        binding,
        new_binding,
        min_x: format!("{}", min.0),
        min_y: format!("{}", min.1),
        max_x: format!("{}", max.0),
        max_y: format!("{}", max.1),
    }
}

/// Test to demonstrate generated shader code with texture remapping
#[test]
fn test_generated_shader_output() {
    // Original shader source with just one atlas texture
    // The textureSample10, textureSample20, textureSample30 functions will be auto-generated
    let original_shader = r#"
@group(1) @binding(0) var atlas_texture: texture_2d<f32>;
@group(1) @binding(1) var my_sampler: sampler;

@vertex
fn vs_main(@builtin(vertex_index) in_vertex_index: u32) -> @builtin(position) vec4<f32> {
    return vec4<f32>(0.0, 0.0, 0.0, 1.0);
}

@fragment
fn fs_main() -> @location(0) vec4<f32> {
    let uv = vec2<f32>(0.5, 0.5);

    // These functions don't exist yet - they'll be generated by the remapping!
    // They represent virtual textures 10, 20, and 30 that all map to regions in atlas_texture
    let color_a = textureSample10(atlas_texture, my_sampler, uv);
    let color_b = textureSample20(atlas_texture, my_sampler, uv);
    let color_c = textureSample30(atlas_texture, my_sampler, uv);

    return mix(mix(color_a, color_b, 0.5), color_c, 0.33);
}
"#;

    println!("\n========== ORIGINAL SHADER ==========");
    println!("{}", original_shader);

    // Create texture remappings simulating sprite atlas regions
    // These map "virtual" texture indices (10, 20, 30) to the actual atlas texture at binding 0
    let remappings = vec![
        region(10, 0, (0.0, 0.0), (0.5, 0.5)), // Top-left quadrant
        region(20, 0, (0.5, 0.0), (1.0, 0.5)), // Top-right quadrant
        region(30, 0, (0.0, 0.5), (0.5, 1.0)), // Bottom-left quadrant
    ];

    // The shader of a pipeline with one texture and these remappings
    let generated_shader = pipeline_shader_code(original_shader, RenderPipelineFlags::empty(), 1, &remappings);

    println!("\n========== GENERATED SHADER ==========");
    println!("{}", generated_shader);
    println!("======================================\n");

    // Verify that textureSample functions were generated
    assert!(generated_shader.contains("fn textureSample10("));
    assert!(generated_shader.contains("fn textureSample20("));
    assert!(generated_shader.contains("fn textureSample30("));

    // Verify UV remapping coordinates are in the functions
    assert!(generated_shader.contains("vec2<f32>(0, 0)"));
    assert!(generated_shader.contains("vec2<f32>(0.5, 0.5)"));
    assert!(generated_shader.contains("vec2<f32>(1, 0.5)"));
    assert!(generated_shader.contains("vec2<f32>(0.5, 1)"));
}

#[test]
fn pipeline_shader_moves_remapped_bindings() {
    let source = "@group(1) @binding(1) var my_sampler: sampler;\n@group(1) @binding(44) var other_sampler: sampler;\n";
    let code = pipeline_shader_code(source, RenderPipelineFlags::override_vertex_input(), 0, &[region(44, 3, (0.0, 0.0), (1.0, 1.0))]);
    assert!(code.starts_with("fn textureSample44(tex: texture_2d<f32>, samp: sampler, uv: vec2<f32>) -> vec4<f32> {\n\tlet min_uv = vec2<f32>(0, 0);\n\tlet max_uv = vec2<f32>(1, 1);\n"));
    assert!(code.contains("@group(1) @binding(3) var other_sampler: sampler;"));
    assert!(!code.contains("@binding(44)"));
    assert!(code.contains("@group(1) @binding(1) var my_sampler: sampler;"));
}

#[test]
fn replace_text_resumes_after_each_replacement() {
    assert_eq!(replace_text("aaaa", "aa", "b"), "bb");
    assert_eq!(replace_text("abcabc", "bc", "X"), "aXaX");
    assert_eq!(replace_text("nothing here", "zz", "y"), "nothing here");
    assert_eq!(replace_text("", "a", "b"), "");
}

#[test]
fn try_parse_refuses_a_binding_beyond_u32() {
    let bad = "@group(0) @binding(99999999999) var t: texture_2d<f32>;";
    assert!(ParsedShader::try_parse(bad).is_none());
    let good = "@group(0) @binding(7) var t: texture_2d<f32>;";
    let parsed = ParsedShader::try_parse(good).unwrap();
    assert_eq!(parsed.texture_references.get("t"), Some(&7));
}

#[test]
fn texture_names_come_in_declaration_order_once_each() {
    let src = "@group(1) @binding(2) var b: texture_2d<f32>;\n@group(1) @binding(0) var a: texture_cube<f32>;\n@group(1) @binding(3) var b: texture_2d<f32>;\n@group(1) @binding(4) var s: sampler;\n";
    let parsed = ParsedShader::parse(src);
    let names: Vec<String> = parsed.texture_names().into_iter().cloned().collect();
    assert_eq!(names, vec!["b".to_string(), "a".to_string()]);
    // A later declaration of a name replaces its binding.
    assert_eq!(parsed.texture_references.get("b"), Some(&3));
}

fn variant(tex: &str, body: &str) -> String {
    format!(
        "@group(1) @binding(0) var {tex}: texture_2d<f32>;\n@group(1) @binding(1) var s: sampler;\n\n@vertex\nfn vs_main(idx: u32) -> @builtin(position) vec4<f32> {{\n    return vec4<f32>(0.0, 0.0, 0.0, 1.0);\n}}\n\n@fragment\nfn fs_main(uv: vec2<f32>) -> @location(0) vec4<f32> {{\n    {body}\n}}\n"
    )
}

#[test]
fn merged_shader_dispatches_on_the_shader_id() {
    let a = variant("tex_a", "return textureSample(tex_a, s, uv);");
    let b = variant("tex_b", "return vec4<f32>(1.0);");
    let parsed = vec![ParsedShader::parse(&a), ParsedShader::parse(&b)];
    // The variants without their globals, as a rewrite leaves the functions.
    let functions_only = |s: &String| s[s.find("@vertex").unwrap()..].to_string();
    let rewritten: Vec<String> = vec![functions_only(&a), functions_only(&b)];
    let merged = ShaderMerger::merge_shaders(&rewritten, &parsed, &[region(0, 0, (0.0, 0.0), (0.5, 1.0))], 2);

    assert!(merged.starts_with("fn textureSample0("));
    assert!(merged.contains("@group(1) @binding(0) var atlas_0: texture_2d<f32>;"));
    assert!(merged.contains("@group(1) @binding(1) var atlas_1: texture_2d<f32>;"));
    // The shared sampler appears once among the merged globals.
    assert_eq!(merged.matches("var s: sampler;").count(), 1);
    assert!(merged.contains("struct InstanceData"));
    assert!(merged.contains("fn vs_main_0("));
    assert!(merged.contains("fn vs_main_1("));
    assert!(merged.contains("fn fs_main_0("));
    assert!(merged.contains("fn fs_main_1("));
    assert!(merged.contains("\t\tcase 0u: { return vs_main_0(idx); }\n"));
    assert!(merged.contains("\t\tcase 1u: { return fs_main_1(uv); }\n"));
    assert!(merged.contains("default: { return vec4<f32>(0.0, 0.0, 0.0, 1.0); }"));
    assert!(merged.contains("default: { return vec4<f32>(1.0, 0.0, 1.0, 1.0); }"));
    assert!(merged.contains("fn vs_main(idx: u32, @builtin(instance_index) inst_id: u32) -> @builtin(position) vec4<f32> {"));
}

#[test]
fn a_signature_keeps_parameter_attributes_and_the_return_type() {
    let a = "@group(1) @binding(1) var s: sampler;\n@vertex\nfn vs_main(@builtin(vertex_index) idx: u32) -> @builtin(position) vec4<f32> {\n    return vec4<f32>(0.0);\n}\n@fragment\nfn fs_main(@location(0) uv: vec2<f32>) -> @location(0) vec4<f32> {\n    return vec4<f32>(1.0);\n}\n".to_string();
    let parsed = vec![ParsedShader::parse(&a)];
    let merged = ShaderMerger::merge_shaders(&[a.clone()], &parsed, &[], 1);
    assert!(merged.contains("\t\tcase 0u: { return vs_main_0(idx); }\n"));
    assert!(merged.contains("fn vs_main(@builtin(vertex_index) idx: u32, @builtin(instance_index) inst_id: u32) -> @builtin(position) vec4<f32> {"));
    assert!(merged.contains("\t\tdefault: { return vec4<f32>(0.0, 0.0, 0.0, 1.0); }\n"));
    assert!(merged.contains("fn fs_main(@location(0) uv: vec2<f32>, @builtin(instance_index) inst_id: u32) -> @location(0) vec4<f32> {"));
    assert!(merged.contains("\t\tcase 0u: { return fs_main_0(uv); }\n"));
}

#[test]
fn extract_function_signature_takes_the_balanced_parameter_list() {
    let (params, return_type) = ShaderMerger::extract_function_signature(
        "fn vs_main(@builtin(vertex_index) idx: u32) -> @builtin(position) vec4<f32> {}",
    );
    assert_eq!(params, "@builtin(vertex_index) idx: u32");
    assert_eq!(return_type, "@builtin(position) vec4<f32>");
    let (params, return_type) = ShaderMerger::extract_function_signature("fn f( a: f32 ) { }");
    assert_eq!(params, "a: f32");
    assert_eq!(return_type, "");
    assert_eq!(
        ShaderMerger::extract_function_signature("fn f(a: f32"),
        (String::new(), String::new())
    );
}

#[test]
fn a_return_type_is_read_after_the_arrow() {
    let parsed = ParsedShader::parse("fn f(uv: vec2<f32>) -> vec4<f32> { return vec4<f32>(uv, 0.0, 1.0); }\nfn g(v: vec2<f32>) {}\n");
    let functions: Vec<&Function> = parsed
        .declarations
        .iter()
        .filter_map(|d| if let Declaration::Function(f) = d { Some(f) } else { None })
        .collect();
    assert_eq!(functions.len(), 2);
    assert_eq!(functions[0].return_type, Some("vec4<f32>".to_string()));
    assert_eq!(functions[1].return_type, None);
}

#[test]
fn a_global_above_a_function_is_not_its_attribute() {
    let src = "@group(0) @binding(0) var s: sampler;\nfn f() {}\n";
    let parsed = ParsedShader::parse(src);
    let f = parsed
        .declarations
        .iter()
        .find_map(|d| if let Declaration::Function(f) = d { Some(f) } else { None })
        .unwrap();
    assert_eq!(f.attributes, "");
    let src = "@group(0) @binding(0) var s: sampler;\n@fragment\n  @early_depth_test\nfn f() {}\n";
    let parsed = ParsedShader::parse(src);
    let g = parsed
        .declarations
        .iter()
        .find_map(|d| if let Declaration::Function(f) = d { Some(f.attributes.clone()) } else { None })
        .unwrap();
    assert_eq!(g, "@fragment\n  @early_depth_test");
}

#[test]
fn atlas_bindings_are_numbered_from_the_start_binding() {
    let text = ShaderRewriter::generate_atlas_bindings(2, 5, 3);
    assert_eq!(
        text,
        "@group(3) @binding(5) var atlas_0: texture_2d<f32>;\n@group(3) @binding(6) var atlas_1: texture_2d<f32>;\n"
    );
}

#[test]
fn sample_functions_have_one_function_per_region() {
    let f = ShaderMerger::generate_texture_sample_functions(&[region(7, 0, (0.25, 0.0), (0.5, 0.75))]);
    assert_eq!(
        f,
        "fn textureSample7(tex: texture_2d<f32>, samp: sampler, uv: vec2<f32>) -> vec4<f32> {\n\tlet min_uv = vec2<f32>(0.25, 0);\n\tlet max_uv = vec2<f32>(0.5, 0.75);\n\tlet remapped_uv = min_uv + uv * (max_uv - min_uv);\n\treturn textureSample(tex, samp, remapped_uv);\n}\n\n"
    );
}

#[test]
fn merged_variants_share_one_texture_numbering() {
    let a = variant("tex_a", "return textureSample(tex_a, s, uv);");
    let b = variant("tex_b", "return textureSample(tex_b, s, uv) + textureSample(tex_a, s, uv);");
    let sources = vec![a.clone(), b.clone()];
    let atlas_index = vec![0usize, 1];
    let regions = vec![region(0, 0, (0.0, 0.0), (0.5, 0.5)), region(1, 1, (0.5, 0.5), (1.0, 1.0))];
    let merged = merged_variant_shader(&sources, RenderPipelineFlags::empty(), &atlas_index, &regions, 2);

    assert!(merged.contains("textureSample0(atlas_0, s, uv)"));
    assert!(merged.contains("textureSample1(atlas_1, s, uv)"));
    // A rewritten function is written `fn <name> (`.
    assert!(merged.contains("fn fs_main_0 ("));
    assert!(merged.contains("fn fs_main_1 ("));

    // The same steps taken one by one give the same shader.
    let parsed = vec![ParsedShader::parse(&a), ParsedShader::parse(&b)];
    let indices = texture_index_map(&parsed);
    assert_eq!(indices.get("tex_a"), Some(&0));
    assert_eq!(indices.get("tex_b"), Some(&1));
    let atlas = atlas_binding_map(&atlas_index);
    let rewritten: Vec<String> = parsed
        .iter()
        .map(|p| ShaderRewriter::rewrite_shader(p, RenderPipelineFlags::empty(), &indices, &atlas))
        .collect();
    assert_eq!(merged, ShaderMerger::merge_shaders(&rewritten, &parsed, &regions, 2));
}

#[test]
fn checked_pipeline_code_refuses_what_does_not_fit() {
    let good = "@group(1) @binding(0) var t: texture_2d<f32>;\nfn fs_main() -> @location(0) vec4<f32> { return textureSample(t, s, uv); }\n";
    let code = try_pipeline_shader_code(good, RenderPipelineFlags::empty(), 1, &[]);
    assert_eq!(code, Some(pipeline_shader_code(good, RenderPipelineFlags::empty(), 1, &[])));
    let bad = "@group(1) @binding(99999999999) var t: texture_2d<f32>;\n";
    assert_eq!(try_pipeline_shader_code(bad, RenderPipelineFlags::empty(), 1, &[]), None);
}

#[test]
fn checked_merge_needs_both_entry_points() {
    let a = variant("tex_a", "return textureSample(tex_a, s, uv);");
    let sources = vec![a.clone()];
    let merged = try_merged_variant_shader(&sources, RenderPipelineFlags::empty(), &vec![0], &[], 1);
    assert_eq!(merged, Some(merged_variant_shader(&sources, RenderPipelineFlags::empty(), &vec![0], &[], 1)));
    let no_vertex = vec!["@fragment\nfn fs_main() -> @location(0) vec4<f32> { return vec4<f32>(1.0); }\n".to_string()];
    assert_eq!(try_merged_variant_shader(&no_vertex, RenderPipelineFlags::empty(), &vec![], &[], 1), None);
    let too_far = vec![a];
    assert_eq!(
        try_merged_variant_shader(&too_far, RenderPipelineFlags::empty(), &vec![usize::MAX], &[], 1),
        None
    );
}

#[test]
fn parse_from_given_matches() {
    let src = "fn f(a: u32) { }";
    let heads = vec![vec![Some((0usize, 5usize)), Some((3, 4))]];
    // The parameter match lies in the head "fn f(a: u32) ".
    let params = vec![vec![vec![Some((5usize, 11usize)), None, Some((5, 6)), Some((8, 11))]]];
    let parsed = ParsedShader::parse_matched(src, &vec![], &vec![], &heads, &params);
    assert_eq!(parsed.declarations.len(), 1);
    let f = match &parsed.declarations[0] {
        Declaration::Function(f) => f,
        _ => panic!("a function"),
    };
    assert_eq!(f.name, "f");
    assert_eq!(f.return_type, None);
    assert_eq!(f.body, " ");
    assert_eq!(f.full_text, src);
    let a = f.parameters.get("a").unwrap();
    assert_eq!((a.position, a.data_type.as_str(), a.location.clone()), (0, "u32", None));
    assert!(parsed.vertex_entry.is_none());

    // The same source parsed with the matches the patterns find.
    let p = ParsedShader::parse(src);
    match &p.declarations[0] {
        Declaration::Function(g) => {
            assert_eq!(g.name, f.name);
            assert_eq!(g.parameters.get("a").unwrap().data_type, "u32");
        },
        _ => panic!("a function"),
    }

    // A global given as a match is read from its groups.
    let src = "@group(2) @binding(5) var t: texture_2d<f32>;";
    let globals = vec![vec![Some((0usize, 45usize)), Some((7, 8)), Some((19, 20)), Some((26, 27)), Some((29, 44))]];
    let parsed = ParsedShader::parse_matched(src, &vec![], &globals, &vec![], &vec![]);
    assert_eq!(parsed.texture_references.get("t"), Some(&5));
}
