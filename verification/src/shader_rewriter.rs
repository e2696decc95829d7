//! Rewriting a parsed shader for the renderer: the uniform and input
//! declarations the pipeline flags ask for are prepended, the vertex entry
//! point receives the raw vertex and instance inputs, texture samples are
//! redirected to atlas textures, and texture variables are dropped.

use std::collections::HashMap;
use vstd::prelude::*;
use crate::pattern::{regex_replaced, replace_all};
use crate::render_pipeline::{FlagBits, RenderPipelineFlags};
use crate::shader_parser::{
    Declaration, DeclarationModel, Function, FunctionModel, Parameter, ParameterModel, ParsedShader,
    duplicate_parameters,
};
use crate::str_map::{text_eq, StrMap};
use crate::text::{chars_of, decimal, push_decimal, push_str, trim_of, trimmed};

verus! {

/// The world uniform block.
pub const WORLD_UNIFORM_WGSL: &'static str = "struct WorldUniform {
    time: f32,
};
@group(0) @binding(0) var<uniform> world: WorldUniform;";

/// The camera uniform block.
pub const CAMERA_UNIFORM_WGSL: &'static str = "struct CameraUniform {
    view_proj: mat4x4<f32>,
};
@group(0) @binding(1) var<uniform> camera: CameraUniform;";

/// The per-vertex input as the vertex buffer holds it, and its translation.
pub const VERTEX_INPUT_WGSL: &'static str = "struct RawVertexInput {
    @location(0) position: vec3<f32>,
    @location(1) tex_coords: vec2<f32>,
};

struct VertexInput {
    position: vec3<f32>,
    tex_coords: vec2<f32>,
};

fn translate_raw_vertex_input(raw: RawVertexInput) -> VertexInput {
    return VertexInput(raw.position, raw.tex_coords);
}";

/// The per-instance input as the instance buffer holds it, and its translation.
pub const INSTANCE_INPUT_WGSL: &'static str = "struct RawInstanceInput {
    @location(4) model_matrix_0: vec4<f32>,
    @location(5) model_matrix_1: vec4<f32>,
    @location(6) model_matrix_2: vec4<f32>,
    @location(7) model_matrix_3: vec4<f32>,
};

struct InstanceInput {
    model_matrix: mat4x4<f32>,
};

fn translate_raw_instance_input(raw: RawInstanceInput) -> InstanceInput {
    return InstanceInput(mat4x4<f32>(raw.model_matrix_0, raw.model_matrix_1, raw.model_matrix_2, raw.model_matrix_3));
}";

/// The statement that gives the vertex entry point its translated vertex.
pub const VERTEX_FUNCTION_VERTEX_INFO_WGSL: &'static str = "let vertex = translate_raw_vertex_input(raw_vertex);\n";

/// The statement that gives the vertex entry point its translated instance.
pub const VERTEX_FUNCTION_INSTANCE_INFO_WGSL: &'static str = "let instance = translate_raw_instance_input(raw_instance);\n";

/// Rewrites shaders for the renderer's pipelines.
pub struct ShaderRewriter;

// ---------------------------------------------------------------------------
// What a rewrite yields.

/// `s` with `x` inserted after every parameter whose position is not greater than `x`'s.
pub open spec fn insert_param(s: Seq<ParameterModel>, x: ParameterModel) -> Seq<ParameterModel>
    decreases s.len(),
{
    if s.len() == 0 {
        seq![x]
    } else if s.last().position <= x.position {
        s.push(x)
    } else {
        insert_param(s.drop_last(), x).push(s.last())
    }
}

/// `s` sorted by position, parameters of equal position keeping their order.
pub open spec fn sort_params(s: Seq<ParameterModel>) -> Seq<ParameterModel>
    decreases s.len(),
{
    if s.len() == 0 {
        s
    } else {
        insert_param(sort_params(s.drop_last()), s.last())
    }
}

/// The parameters of `f` in the order they are written out.
pub open spec fn ordered_params(f: FunctionModel) -> Seq<ParameterModel> {
    sort_params(f.parameter_order.map_values(|k: Seq<char>| f.parameters[k]))
}

/// One parameter as written in a parameter list.
pub open spec fn param_text(p: ParameterModel) -> Seq<char> {
    (match p.location {
        Some(l) => l,
        None => Seq::empty(),
    }) + p.name + ": "@ + p.data_type
}

/// A parameter list, separated by `", "`.
pub open spec fn params_text(ps: Seq<ParameterModel>) -> Seq<char>
    decreases ps.len(),
{
    if ps.len() == 0 {
        Seq::empty()
    } else if ps.len() == 1 {
        param_text(ps[0])
    } else {
        params_text(ps.drop_last()) + ", "@ + param_text(ps.last())
    }
}

/// Whether `f` has a parameter `name` of type `ty`.
pub open spec fn has_param(f: FunctionModel, name: Seq<char>, ty: Seq<char>) -> bool {
    f.parameters.contains_key(name) && f.parameters[name].data_type == ty
}

/// The statements put before the body of `f`.
pub open spec fn entry_prelude(f: FunctionModel, flags: FlagBits) -> Seq<char> {
    let is_vs = f.name == "vs_main"@;
    (if is_vs && !flags.override_vertex_input && has_param(f, "raw_vertex"@, "RawVertexInput"@) {
        "\n    "@ + trim_of(VERTEX_FUNCTION_VERTEX_INFO_WGSL@)
    } else {
        Seq::empty()
    }) + (if is_vs && flags.object_uniform && has_param(f, "raw_instance"@, "RawInstanceInput"@) {
        "\n    "@ + trim_of(VERTEX_FUNCTION_INSTANCE_INFO_WGSL@)
    } else {
        Seq::empty()
    })
}

/// The text of `f` before texture samples are redirected.
pub open spec fn function_text(f: FunctionModel, flags: FlagBits) -> Seq<char> {
    let prefix = if f.attributes.len() == 0 {
        Seq::empty()
    } else {
        f.attributes + "\n"@
    };
    let ret = match f.return_type {
        Some(t) => t,
        None => "()"@,
    };
    prefix + "fn "@ + f.name + " ("@ + params_text(ordered_params(f)) + ") -> "@ + ret + " {"@ + entry_prelude(f, flags)
        + f.body + "}"@
}

/// The pattern of a sample of texture `name`: `textureSample(name,` with any spacing.
pub open spec fn sample_pattern(name: Seq<char>) -> Seq<char> {
    "\\btextureSample\\s*\\(\\s*"@ + name + "\\s*,"@
}

/// The sample of atlas `binding` through the remapping function of texture `index`.
pub open spec fn sample_replacement(index: u32, binding: u32) -> Seq<char> {
    "textureSample"@ + decimal(index as nat) + "(atlas_"@ + decimal(binding as nat) + ","@
}

/// The atlas binding of texture `index` (the first atlas when none is recorded).
pub open spec fn atlas_of(atlas: Map<u32, u32>, index: u32) -> u32 {
    if atlas.contains_key(index) {
        atlas[index]
    } else {
        0
    }
}

/// `text` with the samples of the first `n` textures of `names` redirected.
pub open spec fn redirect_samples(
    text: Seq<char>,
    names: Seq<Seq<char>>,
    indices: Map<Seq<char>, u32>,
    atlas: Map<u32, u32>,
    n: int,
) -> Seq<char>
    decreases n,
{
    if n <= 0 {
        text
    } else {
        let t = redirect_samples(text, names, indices, atlas, n - 1);
        let name = names[n - 1];
        let index = indices[name];
        match regex_replaced(sample_pattern(name), t, sample_replacement(index, atlas_of(atlas, index))) {
            Some(r) => r,
            None => t,
        }
    }
}

/// The rewritten text of function `f`.
pub open spec fn rewritten_function(
    f: FunctionModel,
    flags: FlagBits,
    names: Seq<Seq<char>>,
    indices: Map<Seq<char>, u32>,
    atlas: Map<u32, u32>,
) -> Seq<char> {
    redirect_samples(function_text(f, flags), names, indices, atlas, names.len() as int)
}

/// The raw vertex parameter the renderer gives the vertex entry point.
pub open spec fn raw_vertex_param() -> ParameterModel {
    ParameterModel {
        name: "raw_vertex"@,
        position: (usize::MAX - 1) as usize,
        data_type: "RawVertexInput"@,
        location: None,
    }
}

/// The raw instance parameter the renderer gives the vertex entry point.
pub open spec fn raw_instance_param() -> ParameterModel {
    ParameterModel { name: "raw_instance"@, position: usize::MAX, data_type: "RawInstanceInput"@, location: None }
}

/// Removing `name` from a parameter map and its order.
pub open spec fn without_param(f: FunctionModel, name: Seq<char>) -> FunctionModel {
    FunctionModel {
        parameters: f.parameters.remove(name),
        parameter_order: if f.parameter_order.contains(name) {
            f.parameter_order.remove(f.parameter_order.index_of(name))
        } else {
            f.parameter_order
        },
        ..f
    }
}

/// Adding a parameter that the map does not hold.
pub open spec fn with_param(f: FunctionModel, p: ParameterModel) -> FunctionModel {
    FunctionModel {
        parameters: f.parameters.insert(p.name, p),
        parameter_order: f.parameter_order.push(p.name),
        ..f
    }
}

/// The vertex entry point with its vertex and instance inputs replaced by the raw ones.
pub open spec fn adjusted_entry(f: FunctionModel, flags: FlagBits) -> FunctionModel {
    let f1 = if !flags.override_vertex_input {
        with_param(without_param(without_param(f, "vertex"@), "raw_vertex"@), raw_vertex_param())
    } else {
        f
    };
    if flags.object_uniform {
        with_param(without_param(without_param(f1, "raw_instance"@), "instance"@), raw_instance_param())
    } else {
        f1
    }
}

/// The position of the first function called `vs_main` among the first `n` declarations.
pub open spec fn first_vertex_entry(ds: Seq<DeclarationModel>, n: int) -> Option<int>
    decreases n,
{
    if n <= 0 {
        None
    } else {
        match first_vertex_entry(ds, n - 1) {
            Some(k) => Some(k),
            None => match ds[n - 1] {
                DeclarationModel::Function(f) => if f.name == "vs_main"@ {
                    Some(n - 1)
                } else {
                    None
                },
                _ => None,
            },
        }
    }
}

/// The declarations the flags prepend.
pub open spec fn shader_header(flags: FlagBits, has_vertex_entry: bool) -> Seq<char> {
    (if flags.world_uniform { WORLD_UNIFORM_WGSL@ + "\n"@ } else { Seq::empty() }) + (if flags.camera_uniform {
        CAMERA_UNIFORM_WGSL@ + "\n"@
    } else {
        Seq::empty()
    }) + (if has_vertex_entry && !flags.override_vertex_input {
        VERTEX_INPUT_WGSL@ + "\n"@
    } else {
        Seq::empty()
    }) + (if has_vertex_entry && flags.object_uniform {
        INSTANCE_INPUT_WGSL@ + "\n"@
    } else {
        Seq::empty()
    })
}

/// The rewritten text of declaration `i` of a shader.
pub open spec fn declaration_text(
    ds: Seq<DeclarationModel>,
    i: int,
    textures: Map<Seq<char>, u32>,
    flags: FlagBits,
    names: Seq<Seq<char>>,
    indices: Map<Seq<char>, u32>,
    atlas: Map<u32, u32>,
) -> Seq<char> {
    match ds[i] {
        DeclarationModel::Struct(s) => s.full_text + "\n\n"@,
        DeclarationModel::Global(g) => if textures.contains_key(g.var_name) {
            Seq::empty()
        } else {
            g.full_text + "\n\n"@
        },
        DeclarationModel::Function(f) => {
            let g = if first_vertex_entry(ds, ds.len() as int) == Some(i) {
                adjusted_entry(f, flags)
            } else {
                f
            };
            rewritten_function(g, flags, names, indices, atlas) + "\n\n"@
        },
    }
}

/// The rewritten text of the first `n` declarations.
pub open spec fn declarations_text(
    ds: Seq<DeclarationModel>,
    n: int,
    textures: Map<Seq<char>, u32>,
    flags: FlagBits,
    names: Seq<Seq<char>>,
    indices: Map<Seq<char>, u32>,
    atlas: Map<u32, u32>,
) -> Seq<char>
    decreases n,
{
    if n <= 0 {
        Seq::empty()
    } else {
        declarations_text(ds, n - 1, textures, flags, names, indices, atlas) + declaration_text(
            ds,
            n - 1,
            textures,
            flags,
            names,
            indices,
            atlas,
        )
    }
}

/// The rewritten text of a whole shader.
pub open spec fn rewritten_shader(
    ds: Seq<DeclarationModel>,
    textures: Map<Seq<char>, u32>,
    flags: FlagBits,
    names: Seq<Seq<char>>,
    indices: Map<Seq<char>, u32>,
    atlas: Map<u32, u32>,
) -> Seq<char> {
    shader_header(flags, first_vertex_entry(ds, ds.len() as int) is Some) + declarations_text(
        ds,
        ds.len() as int,
        textures,
        flags,
        names,
        indices,
        atlas,
    )
}

// ---------------------------------------------------------------------------
// The rewrite.

broadcast use vstd::std_specs::hash::group_hash_axioms;

pub open spec fn param_views(ps: Seq<&Parameter>) -> Seq<ParameterModel> {
    ps.map_values(|p: &Parameter| p@)
}

proof fn lemma_insert_param(s: Seq<ParameterModel>, x: ParameterModel, k: int)
    requires
        0 <= k <= s.len(),
        forall|j: int| k <= j < s.len() ==> (#[trigger] s[j]).position > x.position,
        k == 0 || s[k - 1].position <= x.position,
    ensures
        insert_param(s, x) == s.insert(k, x),
    decreases s.len(),
{
    if s.len() == 0 {
        assert(s.insert(k, x) =~= seq![x]);
    } else if s.last().position <= x.position {
        assert(s.insert(k, x) =~= s.push(x));
    } else {
        lemma_insert_param(s.drop_last(), x, k);
        assert(s.drop_last().insert(k, x).push(s.last()) =~= s.insert(k, x));
    }
}

/// The parameters of a map, ordered by position; parameters of equal position
/// keep the order in which their names were recorded.
fn sorted_parameters(params: &StrMap<Parameter>) -> (r: Vec<&Parameter>)
    ensures
        param_views(r@) == sort_params(
            params.keys_seq().map_values(|k: Seq<char>| params@.map_values(|p: Parameter| p@)[k]),
        ),
{
    let values = params.values();
    let ghost all = params.keys_seq().map_values(|k: Seq<char>| params@.map_values(|p: Parameter| p@)[k]);
    let mut r: Vec<&Parameter> = Vec::new();
    let mut i: usize = 0;
    proof {
        assert forall|j: int| 0 <= j < values@.len() implies (#[trigger] values@[j])@ == all[j] by {
            assert(params@.contains_key(params.keys_seq()[j])) by {
                params.lemma_keys_in_map(j);
            }
        }
        assert(all.take(0) =~= Seq::<ParameterModel>::empty());
    }
    while i < values.len()
        invariant
            values@.len() == all.len(),
            forall|j: int| 0 <= j < values@.len() ==> (#[trigger] values@[j])@ == all[j],
            i <= values@.len(),
            param_views(r@) == sort_params(all.take(i as int)),
        decreases values@.len() - i,
    {
        let x = values[i];
        let mut k = r.len();
        while k > 0 && r[k - 1].position > x.position
            invariant
                k <= r@.len(),
                forall|j: int| k <= j < r@.len() ==> (#[trigger] r@[j]).position > x.position,
            decreases k,
        {
            k = k - 1;
        }
        let ghost s0 = param_views(r@);
        proof {
            lemma_insert_param(s0, x@, k as int);
            assert(all.take(i + 1) =~= all.take(i as int).push(x@));
            assert(all.take(i + 1).drop_last() =~= all.take(i as int));
        }
        r.insert(k, x);
        assert(param_views(r@) =~= s0.insert(k as int, x@));
        i = i + 1;
    }
    assert(all.take(values@.len() as int) =~= all);
    r
}

impl ShaderRewriter {
    /// Writes out a parameter list, separated by `", "`.
    fn rewrite_function_parameters(parameters: &Vec<&Parameter>) -> (s: String)
        ensures
            s@ == params_text(param_views(parameters@)),
    {
        let mut output = String::new();
        let mut i: usize = 0;
        while i < parameters.len()
            invariant
                i <= parameters@.len(),
                output@ == params_text(param_views(parameters@).take(i as int)),
            decreases parameters@.len() - i,
        {
            let ghost before = output@;
            let p = parameters[i];
            if i != 0 {
                push_str(&mut output, ", ");
            }
            match &p.location {
                Some(loc) => push_str(&mut output, loc.as_str()),
                None => {},
            }
            push_str(&mut output, p.name.as_str());
            push_str(&mut output, ": ");
            push_str(&mut output, p.data_type.as_str());
            proof {
                let t = param_views(parameters@).take(i + 1);
                assert(t.drop_last() =~= param_views(parameters@).take(i as int));
                assert(t.last() == p@);
                if i == 0 {
                    assert(output@ =~= param_text(p@));
                } else {
                    assert(output@ =~= before + ", "@ + param_text(p@));
                }
            }
            i = i + 1;
        }
        assert(param_views(parameters@).take(parameters@.len() as int) =~= param_views(parameters@));
        output
    }

    /// Redirects every `textureSample(name, ...)` of a texture in
    /// `texture_index_map` to `textureSample<index>(atlas_<binding>, ...)`.
    fn redirect_texture_samples(
        text: String,
        texture_index_map: &StrMap<u32>,
        atlas_binding_map: &HashMap<u32, u32>,
    ) -> (r: String)
        ensures
            r@ == redirect_samples(
                text@,
                texture_index_map.keys_seq(),
                texture_index_map@,
                atlas_binding_map@,
                texture_index_map.keys_seq().len() as int,
            ),
    {
        let names = texture_index_map.keys();
        let mut result = text;
        let mut i: usize = 0;
        while i < names.len()
            invariant
                names@.len() == texture_index_map.keys_seq().len(),
                forall|j: int| 0 <= j < names@.len() ==> (#[trigger] names@[j])@ == texture_index_map.keys_seq()[j],
                forall|k: Seq<char>| texture_index_map@.contains_key(k) <==> texture_index_map.keys_seq().contains(k),
                i <= names@.len(),
                result@ == redirect_samples(
                    text@,
                    texture_index_map.keys_seq(),
                    texture_index_map@,
                    atlas_binding_map@,
                    i as int,
                ),
            decreases names@.len() - i,
        {
            let name = names[i];
            assert(texture_index_map.keys_seq().contains(name@)) by {
                assert(texture_index_map.keys_seq()[i as int] == name@);
            }
            let index = match texture_index_map.get(name.as_str()) {
                Some(v) => *v,
                None => 0,
            };
            let binding = match atlas_binding_map.get(&index) {
                Some(b) => *b,
                None => 0,
            };
            let mut pattern = String::new();
            push_str(&mut pattern, "\\btextureSample\\s*\\(\\s*");
            push_str(&mut pattern, name.as_str());
            push_str(&mut pattern, "\\s*,");
            let mut replacement = String::new();
            push_str(&mut replacement, "textureSample");
            push_decimal(&mut replacement, index as u64);
            push_str(&mut replacement, "(atlas_");
            push_decimal(&mut replacement, binding as u64);
            push_str(&mut replacement, ",");
            assert(pattern@ =~= sample_pattern(name@));
            assert(replacement@ =~= sample_replacement(index, atlas_of(atlas_binding_map@, index)));
            result = replace_all(pattern.as_str(), result.as_str(), replacement.as_str());
            i = i + 1;
        }
        result
    }

    /// Writes out `function` with its parameters ordered by position, the
    /// entry-point prelude the flags ask for, and its texture samples redirected.
    fn rewrite_function_body(
        function: &Function,
        flags: RenderPipelineFlags,
        texture_index_map: &StrMap<u32>,
        atlas_binding_map: &HashMap<u32, u32>,
    ) -> (r: String)
        ensures
            r@ == rewritten_function(
                function@,
                flags@,
                texture_index_map.keys_seq(),
                texture_index_map@,
                atlas_binding_map@,
            ),
    {
        let ghost f = function@;
        let is_vs = text_eq(function.name.as_str(), "vs_main");
        let mut result = String::new();
        if !function.attributes.as_str().is_empty() {
            push_str(&mut result, function.attributes.as_str());
            push_str(&mut result, "\n");
        }
        push_str(&mut result, "fn ");
        push_str(&mut result, function.name.as_str());
        push_str(&mut result, " (");
        let parameters = sorted_parameters(&function.parameters);
        let rendered = Self::rewrite_function_parameters(&parameters);
        push_str(&mut result, rendered.as_str());
        push_str(&mut result, ") -> ");
        match &function.return_type {
            Some(t) => push_str(&mut result, t.as_str()),
            None => push_str(&mut result, "()"),
        }
        push_str(&mut result, " {");
        let ghost before_prelude = result@;
        if is_vs && !flags.contains(RenderPipelineFlags::override_vertex_input()) {
            if Self::has_parameter(&function.parameters, "raw_vertex", "RawVertexInput") {
                push_str(&mut result, "\n    ");
                let info = chars_of(VERTEX_FUNCTION_VERTEX_INFO_WGSL);
                let trimmed_info = trimmed(&info, 0, info.len());
                assert(info@.subrange(0, info@.len() as int) =~= info@);
                push_str(&mut result, trimmed_info.as_str());
            }
        }
        if is_vs && flags.contains(RenderPipelineFlags::allow_object_uniform()) {
            if Self::has_parameter(&function.parameters, "raw_instance", "RawInstanceInput") {
                push_str(&mut result, "\n    ");
                let info = chars_of(VERTEX_FUNCTION_INSTANCE_INFO_WGSL);
                let trimmed_info = trimmed(&info, 0, info.len());
                assert(info@.subrange(0, info@.len() as int) =~= info@);
                push_str(&mut result, trimmed_info.as_str());
            }
        }
        assert(result@ =~= before_prelude + entry_prelude(f, flags@));
        push_str(&mut result, function.body.as_str());
        push_str(&mut result, "}");
        assert(result@ =~= function_text(f, flags@));
        Self::redirect_texture_samples(result, texture_index_map, atlas_binding_map)
    }

    /// The position of the first function called `vs_main`.
    fn find_vertex_entry(declarations: &Vec<Declaration>) -> (r: Option<usize>)
        ensures
            r matches Some(k) ==> first_vertex_entry(declarations@.map_values(|d: Declaration| d@), declarations@.len() as int) == Some(k as int),
            r is None ==> first_vertex_entry(declarations@.map_values(|d: Declaration| d@), declarations@.len() as int) is None,
    {
        let ghost ds = declarations@.map_values(|d: Declaration| d@);
        let mut i: usize = 0;
        while i < declarations.len()
            invariant
                ds == declarations@.map_values(|d: Declaration| d@),
                i <= declarations@.len(),
                first_vertex_entry(ds, i as int) is None,
            decreases declarations@.len() - i,
        {
            match &declarations[i] {
                Declaration::Function(f) => {
                    if text_eq(f.name.as_str(), "vs_main") {
                        proof {
                            lemma_first_vertex_entry_stays(ds, i as int + 1, declarations@.len() as int);
                        }
                        return Some(i);
                    }
                },
                _ => {},
            }
            i = i + 1;
        }
        None
    }

    /// The vertex entry point with the raw vertex and instance inputs the flags ask for.
    fn adjust_entry(function: &Function, flags: RenderPipelineFlags) -> (g: Function)
        ensures
            g@ == adjusted_entry(function@, flags@),
    {
        let ghost f = function@;
        let mut params = duplicate_parameters(&function.parameters);
        let ghost f0 = FunctionModel { parameters: params@.map_values(|p: Parameter| p@), parameter_order: params.keys_seq(), ..f };
        assert(f0 == f);
        let ghost f1 = if !flags@.override_vertex_input {
            with_param(without_param(without_param(f, "vertex"@), "raw_vertex"@), raw_vertex_param())
        } else {
            f
        };
        if !flags.contains(RenderPipelineFlags::override_vertex_input()) {
            Self::remove_param(&mut params, "vertex", Ghost(f));
            let ghost fa = without_param(f, "vertex"@);
            Self::remove_param(&mut params, "raw_vertex", Ghost(fa));
            let ghost fb = without_param(fa, "raw_vertex"@);
            Self::add_param(
                &mut params,
                Parameter {
                    location: None,
                    position: usize::MAX - 1,
                    data_type: "RawVertexInput".to_owned(),
                    name: "raw_vertex".to_owned(),
                },
                Ghost(fb),
            );
        }
        assert(params@.map_values(|p: Parameter| p@) == f1.parameters && params.keys_seq() == f1.parameter_order);
        if flags.contains(RenderPipelineFlags::allow_object_uniform()) {
            Self::remove_param(&mut params, "raw_instance", Ghost(f1));
            let ghost fa = without_param(f1, "raw_instance"@);
            Self::remove_param(&mut params, "instance", Ghost(fa));
            let ghost fb = without_param(fa, "instance"@);
            Self::add_param(
                &mut params,
                Parameter {
                    location: None,
                    position: usize::MAX,
                    data_type: "RawInstanceInput".to_owned(),
                    name: "raw_instance".to_owned(),
                },
                Ghost(fb),
            );
        }
        Function {
            name: function.name.clone(),
            attributes: function.attributes.clone(),
            parameters: params,
            return_type: match &function.return_type {
                Some(t) => Some(t.clone()),
                None => None,
            },
            body: function.body.clone(),
            full_text: function.full_text.clone(),
        }
    }

    fn remove_param(params: &mut StrMap<Parameter>, name: &str, Ghost(f): Ghost<FunctionModel>)
        requires
            old(params)@.map_values(|p: Parameter| p@) == f.parameters,
            old(params).keys_seq() == f.parameter_order,
        ensures
            final(params)@.map_values(|p: Parameter| p@) == without_param(f, name@).parameters,
            final(params).keys_seq() == without_param(f, name@).parameter_order,
    {
        let ghost before = params@;
        params.remove(name);
        assert(params@.map_values(|p: Parameter| p@) =~= before.map_values(|p: Parameter| p@).remove(name@));
    }

    fn add_param(params: &mut StrMap<Parameter>, p: Parameter, Ghost(f): Ghost<FunctionModel>)
        requires
            old(params)@.map_values(|q: Parameter| q@) == f.parameters,
            old(params).keys_seq() == f.parameter_order,
            !f.parameters.contains_key(p.name@),
        ensures
            final(params)@.map_values(|q: Parameter| q@) == with_param(f, p@).parameters,
            final(params).keys_seq() == with_param(f, p@).parameter_order,
    {
        let ghost before = params@;
        let ghost pv = p@;
        let key = p.name.clone();
        params.insert(key, p);
        assert(params@.map_values(|q: Parameter| q@) =~= before.map_values(|q: Parameter| q@).insert(pv.name, pv));
    }

    /// Rewrites `shader` for a pipeline with `flags`: the uniform and input
    /// declarations the flags ask for come first, the first `vs_main`
    /// receives the raw vertex and instance parameters, texture variables are
    /// dropped, and every other declaration follows in order, its texture
    /// samples redirected through `texture_index_map` and `atlas_binding_map`.
    pub fn rewrite_shader(
        shader: &ParsedShader,
        flags: RenderPipelineFlags,
        texture_index_map: &StrMap<u32>,
        atlas_binding_map: &HashMap<u32, u32>,
    ) -> (r: String)
        ensures
            r@ == rewritten_shader(
                shader@.declarations,
                shader@.texture_references,
                flags@,
                texture_index_map.keys_seq(),
                texture_index_map@,
                atlas_binding_map@,
            ),
    {
        let ghost ds = shader@.declarations;
        let ghost names = texture_index_map.keys_seq();
        let ghost indices = texture_index_map@;
        let ghost atlas = atlas_binding_map@;
        let ghost textures = shader@.texture_references;
        let first = Self::find_vertex_entry(&shader.declarations);
        let mut rewritten = String::new();
        if flags.contains(RenderPipelineFlags::allow_world_uniform()) {
            push_str(&mut rewritten, WORLD_UNIFORM_WGSL);
            push_str(&mut rewritten, "\n");
        }
        if flags.contains(RenderPipelineFlags::allow_camera_uniform()) {
            push_str(&mut rewritten, CAMERA_UNIFORM_WGSL);
            push_str(&mut rewritten, "\n");
        }
        if first.is_some() {
            if !flags.contains(RenderPipelineFlags::override_vertex_input()) {
                push_str(&mut rewritten, VERTEX_INPUT_WGSL);
                push_str(&mut rewritten, "\n");
            }
            if flags.contains(RenderPipelineFlags::allow_object_uniform()) {
                push_str(&mut rewritten, INSTANCE_INPUT_WGSL);
                push_str(&mut rewritten, "\n");
            }
        }
        let ghost header = rewritten@;
        assert(header =~= shader_header(flags@, first_vertex_entry(ds, ds.len() as int) is Some));
        let mut i: usize = 0;
        while i < shader.declarations.len()
            invariant
                ds == shader@.declarations,
                ds.len() == shader.declarations@.len(),
                names == texture_index_map.keys_seq(),
                indices == texture_index_map@,
                atlas == atlas_binding_map@,
                textures == shader@.texture_references,
                first matches Some(k) ==> first_vertex_entry(ds, ds.len() as int) == Some(k as int),
                first is None ==> first_vertex_entry(ds, ds.len() as int) is None,
                i <= ds.len(),
                rewritten@ == header + declarations_text(ds, i as int, textures, flags@, names, indices, atlas),
            decreases ds.len() - i,
        {
            let ghost before = rewritten@;
            assert(ds[i as int] == shader.declarations@[i as int]@);
            match &shader.declarations[i] {
                Declaration::Struct(st) => {
                    push_str(&mut rewritten, st.full_text.as_str());
                    push_str(&mut rewritten, "\n\n");
                },
                Declaration::Global(g) => {
                    if !shader.texture_references.contains_key(g.var_name.as_str()) {
                        push_str(&mut rewritten, g.full_text.as_str());
                        push_str(&mut rewritten, "\n\n");
                    }
                },
                Declaration::Function(f) => {
                    let is_first = match first {
                        Some(k) => k == i,
                        None => false,
                    };
                    let text = if is_first {
                        let g = Self::adjust_entry(f, flags);
                        Self::rewrite_function_body(&g, flags, texture_index_map, atlas_binding_map)
                    } else {
                        Self::rewrite_function_body(f, flags, texture_index_map, atlas_binding_map)
                    };
                    push_str(&mut rewritten, text.as_str());
                    push_str(&mut rewritten, "\n\n");
                },
            }
            assert(rewritten@ =~= before + declaration_text(ds, i as int, textures, flags@, names, indices, atlas));
            i = i + 1;
        }
        rewritten
    }

    /// Declares `atlas_count` atlas textures in `group`, at consecutive
    /// bindings from `start_binding`.
    pub fn generate_atlas_bindings(atlas_count: usize, start_binding: u32, group: u32) -> (s: String)
        requires
            start_binding + atlas_count <= u32::MAX + 1,
        ensures
            s@ == atlas_bindings_text(atlas_count as int, start_binding, group),
    {
        let mut bindings = String::new();
        let mut i: usize = 0;
        while i < atlas_count
            invariant
                start_binding + atlas_count <= u32::MAX + 1,
                i <= atlas_count,
                bindings@ == atlas_bindings_text(i as int, start_binding, group),
            decreases atlas_count - i,
        {
            let ghost before = bindings@;
            push_str(&mut bindings, "@group(");
            push_decimal(&mut bindings, group as u64);
            push_str(&mut bindings, ") @binding(");
            push_decimal(&mut bindings, (start_binding + i as u32) as u64);
            push_str(&mut bindings, ") var atlas_");
            push_decimal(&mut bindings, i as u64);
            push_str(&mut bindings, ": texture_2d<f32>;\n");
            assert(bindings@ =~= before + atlas_binding_line(i as int, start_binding, group));
            i = i + 1;
        }
        bindings
    }

    /// Whether `params` holds a parameter `name` of type `ty`.
    fn has_parameter(params: &StrMap<Parameter>, name: &str, ty: &str) -> (r: bool)
        ensures
            r == (params@.contains_key(name@) && params@[name@].data_type@ == ty@),
    {
        match params.get(name) {
            Some(p) => text_eq(p.data_type.as_str(), ty),
            None => false,
        }
    }
}
proof fn lemma_first_vertex_entry_stays(ds: Seq<DeclarationModel>, n: int, m: int)
    requires
        0 <= n <= m <= ds.len(),
        first_vertex_entry(ds, n) is Some,
    ensures
        first_vertex_entry(ds, m) == first_vertex_entry(ds, n),
    decreases m - n,
{
    if m > n {
        lemma_first_vertex_entry_stays(ds, n, m - 1);
    }
}

/// The declaration of atlas texture `i`.
pub open spec fn atlas_binding_line(i: int, start_binding: u32, group: u32) -> Seq<char> {
    "@group("@ + decimal(group as nat) + ") @binding("@ + decimal((start_binding + i) as nat) + ") var atlas_"@
        + decimal(i as nat) + ": texture_2d<f32>;\n"@
}

/// The declarations of the first `n` atlas textures.
pub open spec fn atlas_bindings_text(n: int, start_binding: u32, group: u32) -> Seq<char>
    decreases n,
{
    if n <= 0 {
        Seq::empty()
    } else {
        atlas_bindings_text(n - 1, start_binding, group) + atlas_binding_line(n - 1, start_binding, group)
    }
}

/// Each uniform block heads a rewritten shader exactly under its own flag:
/// the world block comes first when the world uniform is allowed, the
/// camera block then follows when the camera uniform is allowed, and the
/// camera block comes first when only the camera uniform is allowed.
pub proof fn lemma_uniform_blocks_follow_flags(
    ds: Seq<DeclarationModel>,
    textures: Map<Seq<char>, u32>,
    flags: FlagBits,
    names: Seq<Seq<char>>,
    indices: Map<Seq<char>, u32>,
    atlas: Map<u32, u32>,
)
    ensures
        ({
            let r = rewritten_shader(ds, textures, flags, names, indices, atlas);
            let w = WORLD_UNIFORM_WGSL@ + "\n"@;
            let c = CAMERA_UNIFORM_WGSL@ + "\n"@;
            &&& flags.world_uniform && !flags.camera_uniform ==> r.len() >= w.len() && r.take(w.len() as int) == w
            &&& flags.world_uniform && flags.camera_uniform ==> r.len() >= (w + c).len() && r.take((w + c).len() as int)
                == w + c
            &&& !flags.world_uniform && flags.camera_uniform ==> r.len() >= c.len() && r.take(c.len() as int) == c
        }),
{
    let r = rewritten_shader(ds, textures, flags, names, indices, atlas);
    let w = WORLD_UNIFORM_WGSL@ + "\n"@;
    let c = CAMERA_UNIFORM_WGSL@ + "\n"@;
    let has = first_vertex_entry(ds, ds.len() as int) is Some;
    let rest = (if has && !flags.override_vertex_input {
        VERTEX_INPUT_WGSL@ + "\n"@
    } else {
        Seq::empty()
    }) + (if has && flags.object_uniform {
        INSTANCE_INPUT_WGSL@ + "\n"@
    } else {
        Seq::empty()
    }) + declarations_text(ds, ds.len() as int, textures, flags, names, indices, atlas);
    if flags.world_uniform && !flags.camera_uniform {
        assert(r =~= w + rest);
        assert((w + rest).take(w.len() as int) =~= w);
    }
    if flags.world_uniform && flags.camera_uniform {
        assert(r =~= (w + c) + rest);
        assert(((w + c) + rest).take((w + c).len() as int) =~= w + c);
    }
    if !flags.world_uniform && flags.camera_uniform {
        assert(r =~= c + rest);
        assert((c + rest).take(c.len() as int) =~= c);
    }
}

/// The uniform flags change nothing but the blocks in front: a shader
/// rewritten with them is the same shader rewritten without them, after the
/// world block when the world uniform is allowed and then the camera block
/// when the camera uniform is allowed.
pub proof fn lemma_uniform_flags_only_prepend(
    ds: Seq<DeclarationModel>,
    textures: Map<Seq<char>, u32>,
    flags: FlagBits,
    names: Seq<Seq<char>>,
    indices: Map<Seq<char>, u32>,
    atlas: Map<u32, u32>,
)
    ensures
        ({
            let plain = FlagBits { world_uniform: false, camera_uniform: false, ..flags };
            let w = if flags.world_uniform { WORLD_UNIFORM_WGSL@ + "\n"@ } else { Seq::empty() };
            let c = if flags.camera_uniform { CAMERA_UNIFORM_WGSL@ + "\n"@ } else { Seq::empty() };
            rewritten_shader(ds, textures, flags, names, indices, atlas) == w + c + rewritten_shader(
                ds,
                textures,
                plain,
                names,
                indices,
                atlas,
            )
        }),
{
    let plain = FlagBits { world_uniform: false, camera_uniform: false, ..flags };
    lemma_declarations_ignore_uniforms(ds, ds.len() as int, textures, flags, plain, names, indices, atlas);
    let w = if flags.world_uniform { WORLD_UNIFORM_WGSL@ + "\n"@ } else { Seq::empty() };
    let c = if flags.camera_uniform { CAMERA_UNIFORM_WGSL@ + "\n"@ } else { Seq::empty() };
    let has = first_vertex_entry(ds, ds.len() as int) is Some;
    assert(shader_header(flags, has) =~= w + c + shader_header(plain, has));
    assert(rewritten_shader(ds, textures, flags, names, indices, atlas) =~= w + c + rewritten_shader(
        ds,
        textures,
        plain,
        names,
        indices,
        atlas,
    ));
}

/// The declarations are rewritten the same whatever the uniform flags.
proof fn lemma_declarations_ignore_uniforms(
    ds: Seq<DeclarationModel>,
    n: int,
    textures: Map<Seq<char>, u32>,
    f1: FlagBits,
    f2: FlagBits,
    names: Seq<Seq<char>>,
    indices: Map<Seq<char>, u32>,
    atlas: Map<u32, u32>,
)
    requires
        f1.override_vertex_input == f2.override_vertex_input,
        f1.object_uniform == f2.object_uniform,
    ensures
        declarations_text(ds, n, textures, f1, names, indices, atlas) == declarations_text(
            ds,
            n,
            textures,
            f2,
            names,
            indices,
            atlas,
        ),
    decreases n,
{
    if n > 0 {
        lemma_declarations_ignore_uniforms(ds, n - 1, textures, f1, f2, names, indices, atlas);
        match ds[n - 1] {
            DeclarationModel::Function(f) => {
                assert(adjusted_entry(f, f1) == adjusted_entry(f, f2));
                let g = if first_vertex_entry(ds, ds.len() as int) == Some(n - 1) {
                    adjusted_entry(f, f1)
                } else {
                    f
                };
                assert(entry_prelude(g, f1) == entry_prelude(g, f2));
                assert(function_text(g, f1) == function_text(g, f2));
            },
            _ => {},
        }
    }
}

} // verus!
