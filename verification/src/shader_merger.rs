//! Merging several rewritten shader variants into one shader whose entry
//! points dispatch on a per-instance shader id.

use vstd::prelude::*;
use crate::pattern::{find_matches, matches_of, regex_replaced, replace_all, spans_in_bounds, GroupSpans};
use crate::shader_parser::{
    lemma_find_char_from, group_of, opt_function, text_of, Declaration, DeclarationModel, FunctionModel, GlobalModel, ParsedModel,
    ParsedShader,
};
use crate::shader_rewriter::{atlas_bindings_text, ShaderRewriter};
use crate::str_map::text_eq;
use crate::text::{
    find_arrow, find_arrow_exec, find_char_exec, find_char_from, find_matching_close, lemma_find_arrow,
    lemma_matching_close, matching_close, chars_of, contains_exec, contains_seq, decimal, push_decimal, push_str, string_of, trim_of, trimmed,
};

verus! {

/// The atlas region a `textureSample<binding>` function reads, with its
/// corner coordinates written as WGSL numbers, and the binding of the atlas
/// that holds it.
pub struct SampleRegion {
    pub binding: u32,
    pub new_binding: u32,
    pub min_x: String,
    pub min_y: String,
    pub max_x: String,
    pub max_y: String,
}

/// Merges shader variants.
pub struct ShaderMerger;

/// The per-instance data that selects a variant.
pub const INSTANCE_DATA_WGSL: &'static str = "struct InstanceData {
    shader_id: u32,
}

@group(0) @binding(2) var<storage, read> instance_data: array<InstanceData>;
";

/// A parameter name, followed by its colon.
pub const PARAM_NAME_PATTERN: &'static str = r"(\w+)\s*:";

// ---------------------------------------------------------------------------
// What a merge yields.

/// The remapping function for one region.
pub open spec fn sample_function_text(r: SampleRegion) -> Seq<char> {
    "fn textureSample"@ + decimal(r.binding as nat)
        + "(tex: texture_2d<f32>, samp: sampler, uv: vec2<f32>) -> vec4<f32> {\n\tlet min_uv = vec2<f32>("@
        + r.min_x@ + ", "@ + r.min_y@ + ");\n\tlet max_uv = vec2<f32>("@ + r.max_x@ + ", "@ + r.max_y@
        + ");\n\tlet remapped_uv = min_uv + uv * (max_uv - min_uv);\n\treturn textureSample(tex, samp, remapped_uv);\n}\n\n"@
}

/// The remapping functions for the first `n` regions.
pub open spec fn sample_functions_text(rs: Seq<SampleRegion>, n: int) -> Seq<char>
    decreases n,
{
    if n <= 0 {
        Seq::empty()
    } else {
        sample_functions_text(rs, n - 1) + sample_function_text(rs[n - 1])
    }
}

/// The key under which global declarations are merged.
pub open spec fn global_key(g: GlobalModel) -> (u32, u32, Seq<char>) {
    (g.group, g.binding, g.var_type)
}

/// Merging the declarations `ds[..n]` of shader `sh` into `(seen, text)`:
/// every non-texture global whose key is new is written out.
pub open spec fn merge_globals_of(
    sh: ParsedModel,
    n: int,
    seen: Seq<(u32, u32, Seq<char>)>,
    text: Seq<char>,
) -> (Seq<(u32, u32, Seq<char>)>, Seq<char>)
    decreases n,
{
    if n <= 0 {
        (seen, text)
    } else {
        let (seen1, text1) = merge_globals_of(sh, n - 1, seen, text);
        match sh.declarations[n - 1] {
            DeclarationModel::Global(g) => if sh.texture_references.contains_key(g.var_name)
                || seen1.contains(global_key(g)) {
                (seen1, text1)
            } else {
                (seen1.push(global_key(g)), text1 + g.full_text + "\n"@)
            },
            _ => (seen1, text1),
        }
    }
}

/// Merging the globals of the first `n` shaders.
pub open spec fn merge_globals(shs: Seq<ParsedModel>, n: int) -> (Seq<(u32, u32, Seq<char>)>, Seq<char>)
    decreases n,
{
    if n <= 0 {
        (Seq::empty(), Seq::empty())
    } else {
        let (seen, text) = merge_globals(shs, n - 1);
        merge_globals_of(shs[n - 1], shs[n - 1].declarations.len() as int, seen, text)
    }
}

/// The parameter list and return type of a function text, trimmed: the text
/// between its first `(` and the matching `)`, and the text between the `->`
/// that follows and the body's `{` (or the end of the text); empty where
/// the text has no such part.
pub open spec fn signature_of(t: Seq<char>) -> (Seq<char>, Seq<char>) {
    match find_char_from(t, '(', 0) {
        None => (Seq::empty(), Seq::empty()),
        Some(po) => match matching_close(t, po, '(', ')') {
            None => (Seq::empty(), Seq::empty()),
            Some(pc) => {
                let open = match find_char_from(t, '{', pc + 1) {
                    Some(o) => o,
                    None => t.len() as int,
                };
                let rt = match find_arrow(t, pc + 1, open) {
                    Some(a) => trim_of(t.subrange(a + 2, open)),
                    None => Seq::empty(),
                };
                (trim_of(t.subrange(po + 1, pc)), rt)
            },
        },
    }
}

/// The names of the first `n` matches, separated by `", "`.
pub open spec fn names_joined(t: Seq<char>, ms: Seq<GroupSpans>, n: int) -> Seq<char>
    decreases n,
{
    if n <= 0 {
        Seq::empty()
    } else if n == 1 {
        text_of(t, group_of(ms[0], 1))
    } else {
        names_joined(t, ms, n - 1) + ", "@ + text_of(t, group_of(ms[n - 1], 1))
    }
}

/// The names of the parameters in a parameter list, separated by `", "`.
pub open spec fn param_names_of(params: Seq<char>) -> Seq<char> {
    if params.len() == 0 {
        Seq::empty()
    } else {
        let ms = matches_of(PARAM_NAME_PATTERN@, params);
        names_joined(params, ms, ms.len() as int)
    }
}

/// What the master vertex entry returns for an unknown shader id.
pub open spec fn default_vertex_return(return_type: Seq<char>) -> Seq<char> {
    if contains_seq(return_type, "vec4"@) {
        "vec4<f32>(0.0, 0.0, 0.0, 1.0)"@
    } else {
        return_type + "()"@
    }
}

/// The switch cases that call `entry_<i>` for the first `n` variants.
pub open spec fn switch_cases(entry: Seq<char>, names: Seq<char>, n: int) -> Seq<char>
    decreases n,
{
    if n <= 0 {
        Seq::empty()
    } else {
        switch_cases(entry, names, n - 1) + "\t\tcase "@ + decimal((n - 1) as nat) + "u: { return "@ + entry + "_"@
            + decimal((n - 1) as nat) + "("@ + names + "); }\n"@
    }
}

/// The first entry point that `pick` selects among the shaders.
pub open spec fn first_entry(shs: Seq<ParsedModel>, vertex: bool) -> Option<FunctionModel>
    decreases shs.len(),
{
    if shs.len() == 0 {
        None
    } else {
        let e = if vertex { shs[0].vertex_entry } else { shs[0].fragment_entry };
        match e {
            Some(f) => Some(f),
            None => first_entry(shs.drop_first(), vertex),
        }
    }
}

/// The master vertex entry point for `n` variants whose first vertex entry is `f`.
pub open spec fn master_vertex_text(f: FunctionModel, n: int) -> Seq<char> {
    let (params, rt) = signature_of(f.full_text);
    "@vertex\nfn vs_main("@ + params + ", @builtin(instance_index) inst_id: u32) -> "@ + rt
        + " {\n\tlet shader_id = instance_data[inst_id].shader_id;\n\tswitch (shader_id) {\n"@ + switch_cases(
        "vs_main"@,
        param_names_of(params),
        n,
    ) + "\t\tdefault: { return "@ + default_vertex_return(rt) + "; }\n\t}\n}\n"@
}

/// The master fragment entry point for `n` variants whose first fragment entry is `f`.
pub open spec fn master_fragment_text(f: FunctionModel, n: int) -> Seq<char> {
    let (params, rt) = signature_of(f.full_text);
    "@fragment\nfn fs_main("@ + params + ", @builtin(instance_index) inst_id: u32) -> "@ + rt
        + " {\n\tlet shader_id = instance_data[inst_id].shader_id;\n\tswitch (shader_id) {\n"@ + switch_cases(
        "fs_main"@,
        param_names_of(params),
        n,
    ) + "\t\tdefault: { return vec4<f32>(1.0, 0.0, 1.0, 1.0); }\n\t}\n}\n"@
}

/// `src` with its entry points renamed for variant `i`.
pub open spec fn renamed_entry_points(src: Seq<char>, i: nat) -> Seq<char> {
    let t = match regex_replaced("\\bvs_main\\b"@, src, "vs_main_"@ + decimal(i)) {
        Some(r) => r,
        None => src,
    };
    match regex_replaced("\\bfs_main\\b"@, t, "fs_main_"@ + decimal(i)) {
        Some(r) => r,
        None => t,
    }
}

/// The renamed variants `srcs[..n]`, each followed by a newline.
pub open spec fn variants_text(srcs: Seq<Seq<char>>, n: int) -> Seq<char>
    decreases n,
{
    if n <= 0 {
        Seq::empty()
    } else {
        variants_text(srcs, n - 1) + renamed_entry_points(srcs[n - 1], (n - 1) as nat) + "\n"@
    }
}

/// The whole merged shader.
pub open spec fn merged_text(
    srcs: Seq<Seq<char>>,
    shs: Seq<ParsedModel>,
    regions: Seq<SampleRegion>,
    atlas_count: int,
) -> Seq<char> {
    sample_functions_text(regions, regions.len() as int) + "\n"@ + atlas_bindings_text(atlas_count, 0, 1) + "\n"@
        + merge_globals(shs, shs.len() as int).1 + "\n"@ + INSTANCE_DATA_WGSL@ + "\n"@ + variants_text(
        srcs,
        srcs.len() as int,
    ) + master_vertex_text(first_entry(shs, true)->0, shs.len() as int) + "\n"@ + master_fragment_text(
        first_entry(shs, false)->0,
        shs.len() as int,
    ) + "\n"@
}

pub open spec fn models_of(shs: Seq<ParsedShader>) -> Seq<ParsedModel> {
    shs.map_values(|s: ParsedShader| s@)
}

pub open spec fn texts_of(srcs: Seq<String>) -> Seq<Seq<char>> {
    srcs.map_values(|s: String| s@)
}

// ---------------------------------------------------------------------------
// The merge.

impl ShaderMerger {
    /// Merges rewritten shader variants into one shader: the remapping
    /// functions of the regions, the atlas bindings, the globals the variants
    /// share, the per-instance data, each variant with its entry points
    /// renamed, and master entry points that dispatch on the shader id.
    pub fn merge_shaders(
        rewritten_shaders: &[String],
        parsed_shaders: &[ParsedShader],
        texture_remappings: &[SampleRegion],
        atlas_count: usize,
    ) -> (merged: String)
        requires
            first_entry(models_of(parsed_shaders@), true) is Some,
            first_entry(models_of(parsed_shaders@), false) is Some,
            atlas_count <= u32::MAX + 1,
        ensures
            merged@ == merged_text(
                texts_of(rewritten_shaders@),
                models_of(parsed_shaders@),
                texture_remappings@,
                atlas_count as int,
            ),
    {
        let mut merged = String::new();
        let t = Self::generate_texture_sample_functions(texture_remappings);
        push_str(&mut merged, t.as_str());
        push_str(&mut merged, "\n");
        let t = ShaderRewriter::generate_atlas_bindings(atlas_count, 0, 1);
        push_str(&mut merged, t.as_str());
        push_str(&mut merged, "\n");
        let t = Self::merge_common_globals(parsed_shaders);
        push_str(&mut merged, t.as_str());
        push_str(&mut merged, "\n");
        let t = Self::generate_instance_data_structure();
        push_str(&mut merged, t.as_str());
        push_str(&mut merged, "\n");
        let ghost head = merged@;
        let ghost srcs = texts_of(rewritten_shaders@);
        let mut i: usize = 0;
        while i < rewritten_shaders.len()
            invariant
                srcs == texts_of(rewritten_shaders@),
                i <= rewritten_shaders@.len(),
                merged@ == head + variants_text(srcs, i as int),
            decreases rewritten_shaders@.len() - i,
        {
            let ghost before = merged@;
            let t = Self::rename_entry_points(rewritten_shaders[i].as_str(), i);
            push_str(&mut merged, t.as_str());
            push_str(&mut merged, "\n");
            assert(merged@ =~= before + renamed_entry_points(srcs[i as int], i as nat) + "\n"@);
            i = i + 1;
        }
        let t = Self::generate_master_vertex_entry(parsed_shaders);
        push_str(&mut merged, t.as_str());
        push_str(&mut merged, "\n");
        let t = Self::generate_master_fragment_entry(parsed_shaders);
        push_str(&mut merged, t.as_str());
        push_str(&mut merged, "\n");
        merged
    }

    /// One `textureSample<binding>` function per region, remapping the
    /// coordinates it is given into the region.
    pub fn generate_texture_sample_functions(remappings: &[SampleRegion]) -> (functions: String)
        ensures
            functions@ == sample_functions_text(remappings@, remappings@.len() as int),
    {
        let mut functions = String::new();
        let mut i: usize = 0;
        while i < remappings.len()
            invariant
                i <= remappings@.len(),
                functions@ == sample_functions_text(remappings@, i as int),
            decreases remappings@.len() - i,
        {
            let ghost before = functions@;
            let r = &remappings[i];
            push_str(&mut functions, "fn textureSample");
            push_decimal(&mut functions, r.binding as u64);
            push_str(
                &mut functions,
                "(tex: texture_2d<f32>, samp: sampler, uv: vec2<f32>) -> vec4<f32> {\n\tlet min_uv = vec2<f32>(",
            );
            push_str(&mut functions, r.min_x.as_str());
            push_str(&mut functions, ", ");
            push_str(&mut functions, r.min_y.as_str());
            push_str(&mut functions, ");\n\tlet max_uv = vec2<f32>(");
            push_str(&mut functions, r.max_x.as_str());
            push_str(&mut functions, ", ");
            push_str(&mut functions, r.max_y.as_str());
            push_str(
                &mut functions,
                ");\n\tlet remapped_uv = min_uv + uv * (max_uv - min_uv);\n\treturn textureSample(tex, samp, remapped_uv);\n}\n\n",
            );
            assert(functions@ =~= before + sample_function_text(remappings@[i as int]));
            i = i + 1;
        }
        functions
    }

    /// Whether `key` is among `seen`.
    fn seen_contains(seen: &Vec<(u32, u32, String)>, key: (u32, u32, &str)) -> (r: bool)
        ensures
            r == seen_keys(seen@).contains((key.0, key.1, key.2@)),
    {
        let mut i: usize = 0;
        while i < seen.len()
            invariant
                i <= seen@.len(),
                forall|j: int| 0 <= j < i ==> seen_keys(seen@)[j] != (key.0, key.1, key.2@),
            decreases seen@.len() - i,
        {
            let e = &seen[i];
            if e.0 == key.0 && e.1 == key.1 && text_eq(e.2.as_str(), key.2) {
                assert(seen_keys(seen@)[i as int] == (key.0, key.1, key.2@));
                return true;
            }
            i = i + 1;
        }
        false
    }

    /// The global declarations of the shaders that are not textures, each
    /// group, binding and type written out once.
    fn merge_common_globals(shaders: &[ParsedShader]) -> (merged: String)
        ensures
            merged@ == merge_globals(models_of(shaders@), shaders@.len() as int).1,
    {
        let ghost shs = models_of(shaders@);
        let mut seen: Vec<(u32, u32, String)> = Vec::new();
        let mut merged = String::new();
        let mut i: usize = 0;
        while i < shaders.len()
            invariant
                shs == models_of(shaders@),
                i <= shaders@.len(),
                (seen_keys(seen@), merged@) == merge_globals(shs, i as int),
            decreases shaders@.len() - i,
        {
            let shader = &shaders[i];
            let ghost sh = shs[i as int];
            assert(sh == shader@);
            let ghost seen0 = seen_keys(seen@);
            let ghost text0 = merged@;
            let mut j: usize = 0;
            while j < shader.declarations.len()
                invariant
                    sh == shader@,
                    j <= shader.declarations@.len(),
                    (seen_keys(seen@), merged@) == merge_globals_of(sh, j as int, seen0, text0),
                decreases shader.declarations@.len() - j,
            {
                assert(sh.declarations[j as int] == shader.declarations@[j as int]@);
                match &shader.declarations[j] {
                    Declaration::Global(g) => {
                        if !shader.texture_references.contains_key(g.var_name.as_str())
                            && !Self::seen_contains(&seen, (g.group, g.binding, g.var_type.as_str())) {
                            let ghost sk0 = seen_keys(seen@);
                            seen.push((g.group, g.binding, g.var_type.clone()));
                            assert(seen_keys(seen@) =~= sk0.push((g.group, g.binding, g.var_type@)));
                            push_str(&mut merged, g.full_text.as_str());
                            push_str(&mut merged, "\n");
                        }
                    },
                    _ => {},
                }
                j = j + 1;
            }
            i = i + 1;
        }
        merged
    }

    /// The per-instance data structure that selects a variant.
    fn generate_instance_data_structure() -> (s: String)
        ensures
            s@ == INSTANCE_DATA_WGSL@,
    {
        INSTANCE_DATA_WGSL.to_owned()
    }

    /// Renames `vs_main` to `vs_main_<i>` and `fs_main` to `fs_main_<i>` as whole words.
    fn rename_entry_points(shader_src: &str, variant_index: usize) -> (s: String)
        ensures
            s@ == renamed_entry_points(shader_src@, variant_index as nat),
    {
        let mut vs = String::new();
        push_str(&mut vs, "vs_main_");
        push_decimal(&mut vs, variant_index as u64);
        let result = replace_all("\\bvs_main\\b", shader_src, vs.as_str());
        let mut fs = String::new();
        push_str(&mut fs, "fs_main_");
        push_decimal(&mut fs, variant_index as u64);
        replace_all("\\bfs_main\\b", result.as_str(), fs.as_str())
    }

    /// The parameter list and return type of `function_text`, trimmed.
    pub fn extract_function_signature(function_text: &str) -> (r: (String, String))
        ensures
            (r.0@, r.1@) == signature_of(function_text@),
    {
        let chars = chars_of(function_text);
        let n = chars.len();
        let po = match find_char_exec(&chars, '(', 0) {
            Some(po) => po,
            None => return (String::new(), String::new()),
        };
        let pc = match find_matching_close(&chars, po, '(', ')') {
            Some(pc) => pc,
            None => return (String::new(), String::new()),
        };
        proof {
            lemma_matching_close(chars@, po as int, '(', ')');
            assert(matching_close(chars@, po as int, '(', ')') == Some(pc as int));
        }
        assert(po < pc < n);
        let params = trimmed(&chars, po + 1, pc);
        let open = match find_char_exec(&chars, '{', pc + 1) {
            Some(o) => {
                proof {
                    lemma_find_char_from(chars@, '{', pc + 1);
                }
                o
            },
            None => n,
        };
        let return_type = match find_arrow_exec(&chars, pc + 1, open) {
            Some(a) => {
                proof {
                    lemma_find_arrow(chars@, pc + 1, open as int);
                }
                trimmed(&chars, a + 2, open)
            },
            None => {
                assert(trim_of(Seq::<char>::empty()) =~= Seq::<char>::empty());
                String::new()
            },
        };
        (params, return_type)
    }

    /// The parameter names of a parameter list, separated by `", "`.
    fn extract_param_names(params: &str) -> (s: String)
        ensures
            s@ == param_names_of(params@),
    {
        if params.is_empty() {
            return String::new();
        }
        let ms = find_matches(PARAM_NAME_PATTERN, params);
        let chars = chars_of(params);
        let ghost msv = ms.deep_view();
        let mut names = String::new();
        let mut i: usize = 0;
        while i < ms.len()
            invariant
                msv == ms.deep_view(),
                spans_in_bounds(msv, params@.len()),
                chars@ == params@,
                i <= ms@.len(),
                names@ == names_joined(params@, msv, i as int),
            decreases ms@.len() - i,
        {
            let ghost before = names@;
            assert(msv[i as int] == ms@[i as int].deep_view());
            let m = &ms[i];
            if i != 0 {
                push_str(&mut names, ", ");
            }
            let ghost mv = msv[i as int];
            assert(mv.len() >= 1);
            let name = if 1 < m.len() {
                assert(mv[1] == m@[1]);
                match m[1] {
                    Some(sp) => {
                        assert(sp.0 <= sp.1 <= params@.len());
                        string_of(&chars, sp.0, sp.1)
                    },
                    None => String::new(),
                }
            } else {
                String::new()
            };
            push_str(&mut names, name.as_str());
            assert(names@ =~= names_joined(params@, msv, i + 1));
            i = i + 1;
        }
        names
    }

    /// What the master vertex entry returns for an unknown shader id.
    fn get_default_vertex_return(return_type: &str) -> (s: String)
        ensures
            s@ == default_vertex_return(return_type@),
    {
        let rt = chars_of(return_type);
        let vec4 = chars_of("vec4");
        if contains_exec(&rt, &vec4) {
            "vec4<f32>(0.0, 0.0, 0.0, 1.0)".to_owned()
        } else {
            let mut s = return_type.to_owned();
            push_str(&mut s, "()");
            s
        }
    }

    /// The index of the first shader that has a vertex (or fragment) entry point.
    pub(crate) fn first_entry_index(shaders: &[ParsedShader], vertex: bool) -> (r: Option<usize>)
        ensures
            r matches Some(k) ==> k < shaders@.len() && first_entry(models_of(shaders@), vertex) == (if vertex {
                shaders@[k as int]@.vertex_entry
            } else {
                shaders@[k as int]@.fragment_entry
            }),
            r is None ==> first_entry(models_of(shaders@), vertex) is None,
            r is Some ==> first_entry(models_of(shaders@), vertex) is Some,
    {
        let ghost shs = models_of(shaders@);
        let mut i: usize = 0;
        assert(shs.skip(0) =~= shs);
        while i < shaders.len()
            invariant
                shs == models_of(shaders@),
                i <= shaders@.len(),
                first_entry(shs, vertex) == first_entry(shs.skip(i as int), vertex),
            decreases shaders@.len() - i,
        {
            let has = if vertex {
                shaders[i].vertex_entry.is_some()
            } else {
                shaders[i].fragment_entry.is_some()
            };
            assert(shs.skip(i as int)[0] == shaders@[i as int]@);
            assert(shs.skip(i as int).drop_first() =~= shs.skip(i + 1));
            if has {
                return Some(i);
            }
            i = i + 1;
        }
        None
    }

    /// The switch cases that call `<entry>_<i>(names)` for `count` variants.
    fn generate_switch_cases(entry: &str, names: &str, count: usize) -> (s: String)
        ensures
            s@ == switch_cases(entry@, names@, count as int),
    {
        let mut cases = String::new();
        let mut i: usize = 0;
        while i < count
            invariant
                i <= count,
                cases@ == switch_cases(entry@, names@, i as int),
            decreases count - i,
        {
            let ghost before = cases@;
            push_str(&mut cases, "\t\tcase ");
            push_decimal(&mut cases, i as u64);
            push_str(&mut cases, "u: { return ");
            push_str(&mut cases, entry);
            push_str(&mut cases, "_");
            push_decimal(&mut cases, i as u64);
            push_str(&mut cases, "(");
            push_str(&mut cases, names);
            push_str(&mut cases, "); }\n");
            assert(cases@ =~= switch_cases(entry@, names@, i + 1));
            i = i + 1;
        }
        cases
    }

    /// The master vertex entry point: it takes the parameters of the first
    /// vertex entry point and the instance index, and calls the variant that
    /// the instance's shader id selects.
    fn generate_master_vertex_entry(shaders: &[ParsedShader]) -> (s: String)
        requires
            first_entry(models_of(shaders@), true) is Some,
        ensures
            s@ == master_vertex_text(first_entry(models_of(shaders@), true)->0, shaders@.len() as int),
    {
        let k = Self::first_entry_index(shaders, true).unwrap();
        let first_vs = shaders[k].vertex_entry.as_ref().unwrap();
        let (params, return_type) = Self::extract_function_signature(first_vs.full_text.as_str());
        let names = Self::extract_param_names(params.as_str());
        let cases = Self::generate_switch_cases("vs_main", names.as_str(), shaders.len());
        let default_return = Self::get_default_vertex_return(return_type.as_str());
        let mut s = String::new();
        push_str(&mut s, "@vertex\nfn vs_main(");
        push_str(&mut s, params.as_str());
        push_str(&mut s, ", @builtin(instance_index) inst_id: u32) -> ");
        push_str(&mut s, return_type.as_str());
        push_str(&mut s, " {\n\tlet shader_id = instance_data[inst_id].shader_id;\n\tswitch (shader_id) {\n");
        push_str(&mut s, cases.as_str());
        push_str(&mut s, "\t\tdefault: { return ");
        push_str(&mut s, default_return.as_str());
        push_str(&mut s, "; }\n\t}\n}\n");
        assert(s@ =~= master_vertex_text(first_entry(models_of(shaders@), true)->0, shaders@.len() as int));
        s
    }

    /// The master fragment entry point: it takes the parameters of the first
    /// fragment entry point and the instance index, and calls the variant
    /// that the instance's shader id selects.
    fn generate_master_fragment_entry(shaders: &[ParsedShader]) -> (s: String)
        requires
            first_entry(models_of(shaders@), false) is Some,
        ensures
            s@ == master_fragment_text(first_entry(models_of(shaders@), false)->0, shaders@.len() as int),
    {
        let k = Self::first_entry_index(shaders, false).unwrap();
        let first_fs = shaders[k].fragment_entry.as_ref().unwrap();
        let (params, return_type) = Self::extract_function_signature(first_fs.full_text.as_str());
        let names = Self::extract_param_names(params.as_str());
        let cases = Self::generate_switch_cases("fs_main", names.as_str(), shaders.len());
        let mut s = String::new();
        push_str(&mut s, "@fragment\nfn fs_main(");
        push_str(&mut s, params.as_str());
        push_str(&mut s, ", @builtin(instance_index) inst_id: u32) -> ");
        push_str(&mut s, return_type.as_str());
        push_str(&mut s, " {\n\tlet shader_id = instance_data[inst_id].shader_id;\n\tswitch (shader_id) {\n");
        push_str(&mut s, cases.as_str());
        push_str(&mut s, "\t\tdefault: { return vec4<f32>(1.0, 0.0, 1.0, 1.0); }\n\t}\n}\n");
        assert(s@ =~= master_fragment_text(first_entry(models_of(shaders@), false)->0, shaders@.len() as int));
        s
    }
}

pub open spec fn seen_keys(seen: Seq<(u32, u32, String)>) -> Seq<(u32, u32, Seq<char>)> {
    seen.map_values(|e: (u32, u32, String)| (e.0, e.1, e.2@))
}

/// The global declaration at `p` (a shader index and a declaration index).
pub open spec fn global_at(shs: Seq<ParsedModel>, p: (int, int)) -> GlobalModel {
    match shs[p.0].declarations[p.1] {
        DeclarationModel::Global(g) => g,
        _ => arbitrary(),
    }
}

/// Whether `p` addresses a global declaration of `shs` that is not one of
/// its shader's textures.
pub open spec fn non_texture_global(shs: Seq<ParsedModel>, p: (int, int)) -> bool {
    &&& 0 <= p.0 < shs.len()
    &&& 0 <= p.1 < shs[p.0].declarations.len()
    &&& shs[p.0].declarations[p.1] is Global
    &&& !shs[p.0].texture_references.contains_key(global_at(shs, p).var_name)
}

/// The full texts of the globals at `picks`, each followed by a newline.
pub open spec fn picked_text(shs: Seq<ParsedModel>, picks: Seq<(int, int)>) -> Seq<char>
    decreases picks.len(),
{
    if picks.len() == 0 {
        Seq::empty()
    } else {
        picked_text(shs, picks.drop_last()) + global_at(shs, picks.last()).full_text + "\n"@
    }
}

/// The group, binding and type of the globals at `picks`.
pub open spec fn picked_keys(shs: Seq<ParsedModel>, picks: Seq<(int, int)>) -> Seq<(u32, u32, Seq<char>)> {
    picks.map_values(|p: (int, int)| global_key(global_at(shs, p)))
}

/// The globals of a merge: the merged globals section is the full texts of
/// some globals of the shaders, each on a line of its own, none of which is
/// a texture of its shader (the atlases take the textures' place); no two
/// of them share their group, binding and type; and every non-texture
/// global of every shader shares its group, binding and type with one of
/// them.
pub proof fn lemma_merged_globals(shs: Seq<ParsedModel>) -> (picks: Seq<(int, int)>)
    ensures
        merge_globals(shs, shs.len() as int).1 == picked_text(shs, picks),
        forall|k: int| 0 <= k < picks.len() ==> non_texture_global(shs, #[trigger] picks[k]),
        picked_keys(shs, picks).no_duplicates(),
        forall|i: int, j: int|
            non_texture_global(shs, (i, j)) ==> #[trigger] picked_keys(shs, picks).contains(
                global_key(global_at(shs, (i, j))),
            ),
{
    lemma_merge_globals_upto(shs, shs.len() as int)
}

proof fn lemma_merge_globals_upto(shs: Seq<ParsedModel>, n: int) -> (picks: Seq<(int, int)>)
    requires
        0 <= n <= shs.len(),
    ensures
        merge_globals(shs, n) == (picked_keys(shs, picks), picked_text(shs, picks)),
        forall|k: int| 0 <= k < picks.len() ==> non_texture_global(shs, #[trigger] picks[k]),
        picked_keys(shs, picks).no_duplicates(),
        forall|i: int, j: int|
            i < n && non_texture_global(shs, (i, j)) ==> #[trigger] picked_keys(shs, picks).contains(
                global_key(global_at(shs, (i, j))),
            ),
    decreases n,
{
    if n <= 0 {
        let picks = Seq::<(int, int)>::empty();
        assert(picked_keys(shs, picks) =~= Seq::<(u32, u32, Seq<char>)>::empty());
        picks
    } else {
        let p0 = lemma_merge_globals_upto(shs, n - 1);
        let i = n - 1;
        let picks = lemma_merge_globals_of(shs, i, shs[i].declarations.len() as int, p0);
        assert forall|a: int, j: int|
            a < n && non_texture_global(shs, (a, j)) implies #[trigger] picked_keys(shs, picks).contains(
                global_key(global_at(shs, (a, j))),
            ) by {
            if a < n - 1 {
                assert(picked_keys(shs, p0).contains(global_key(global_at(shs, (a, j)))));
            }
        }
        picks
    }
}

/// Merging the first `m` declarations of shader `i` into the globals picked
/// so far picks more of them, keeping those.
proof fn lemma_merge_globals_of(shs: Seq<ParsedModel>, i: int, m: int, p0: Seq<(int, int)>) -> (picks: Seq<(int, int)>)
    requires
        0 <= i < shs.len(),
        0 <= m <= shs[i].declarations.len(),
        forall|k: int| 0 <= k < p0.len() ==> non_texture_global(shs, #[trigger] p0[k]),
        picked_keys(shs, p0).no_duplicates(),
    ensures
        merge_globals_of(shs[i], m, picked_keys(shs, p0), picked_text(shs, p0)) == (
            picked_keys(shs, picks),
            picked_text(shs, picks),
        ),
        forall|k: int| 0 <= k < picks.len() ==> non_texture_global(shs, #[trigger] picks[k]),
        picked_keys(shs, picks).no_duplicates(),
        forall|x: (u32, u32, Seq<char>)| picked_keys(shs, p0).contains(x) ==> #[trigger] picked_keys(shs, picks).contains(x),
        forall|j: int|
            0 <= j < m && non_texture_global(shs, (i, j)) ==> #[trigger] picked_keys(shs, picks).contains(
                global_key(global_at(shs, (i, j))),
            ),
    decreases m,
{
    if m <= 0 {
        p0
    } else {
        let p1 = lemma_merge_globals_of(shs, i, m - 1, p0);
        let sh = shs[i];
        let (seen1, text1) = merge_globals_of(sh, m - 1, picked_keys(shs, p0), picked_text(shs, p0));
        let p = (i, m - 1);
        match sh.declarations[m - 1] {
            DeclarationModel::Global(g) => {
                assert(global_at(shs, p) == g);
                if sh.texture_references.contains_key(g.var_name) || seen1.contains(global_key(g)) {
                    p1
                } else {
                    let picks = p1.push(p);
                    assert(picks.drop_last() =~= p1);
                    assert(picked_keys(shs, picks) =~= picked_keys(shs, p1).push(global_key(g)));
                    assert forall|k: int| 0 <= k < picks.len() implies non_texture_global(shs, #[trigger] picks[k]) by {
                        if k < p1.len() {
                            assert(picks[k] == p1[k]);
                        }
                    }
                    assert forall|a: int, b: int|
                        0 <= a < b < picked_keys(shs, picks).len() implies picked_keys(shs, picks)[a] != picked_keys(
                            shs,
                            picks,
                        )[b] by {
                        if b == p1.len() {
                            assert(picked_keys(shs, p1)[a] == picked_keys(shs, picks)[a]);
                        } else {
                            assert(picked_keys(shs, p1)[a] == picked_keys(shs, picks)[a]);
                            assert(picked_keys(shs, p1)[b] == picked_keys(shs, picks)[b]);
                        }
                    }
                    assert forall|x: (u32, u32, Seq<char>)| picked_keys(shs, p1).contains(x) implies #[trigger] picked_keys(
                        shs,
                        picks,
                    ).contains(x) by {
                        let k = choose|k: int| 0 <= k < picked_keys(shs, p1).len() && picked_keys(shs, p1)[k] == x;
                        assert(picked_keys(shs, picks)[k] == x);
                    }
                    assert(picked_keys(shs, picks)[p1.len() as int] == global_key(g));
                    picks
                }
            },
            _ => p1,
        }
    }
}

} // verus!
