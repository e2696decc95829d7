//! What a render pipeline is built from: its option flags, the tables that
//! map shader textures to atlas slots, and the layout decisions that follow
//! from the flags.

use crate::shader_merger::{sample_functions_text, SampleRegion, ShaderMerger};
use crate::shader_parser::{bindings_fit, parse_model, texture_names_of, ParsedShader};
use crate::shader_rewriter::{rewritten_shader, ShaderRewriter};
use crate::str_map::StrMap;
use crate::text::{decimal, push_decimal, push_str, replace_text, replaced};
use std::collections::HashMap;
use vstd::prelude::*;

verus! {

broadcast use vstd::std_specs::hash::group_hash_axioms;

/// The options of a render pipeline, as a set of four flags.
#[derive(Clone, Copy, Debug, PartialEq, Eq, Structural)]
pub struct RenderPipelineFlags {
    world_uniform: bool,
    camera_uniform: bool,
    object_uniform: bool,
    override_vertex_input: bool,
}

/// The flags as a set of bits: world uniform 1, camera uniform 2, object
/// uniform 4, vertex-input override 8.
pub struct FlagBits {
    pub world_uniform: bool,
    pub camera_uniform: bool,
    pub object_uniform: bool,
    pub override_vertex_input: bool,
}

impl View for RenderPipelineFlags {
    type V = FlagBits;

    closed spec fn view(&self) -> FlagBits {
        FlagBits {
            world_uniform: self.world_uniform,
            camera_uniform: self.camera_uniform,
            object_uniform: self.object_uniform,
            override_vertex_input: self.override_vertex_input,
        }
    }
}

/// The bit value of a set of flags.
pub open spec fn bits_of(f: FlagBits) -> u32 {
    ((if f.world_uniform { 1u32 } else { 0u32 }) + (if f.camera_uniform { 2u32 } else { 0u32 }) + (
    if f.object_uniform { 4u32 } else { 0u32 }) + (if f.override_vertex_input { 8u32 } else { 0u32 })) as u32
}

/// Whether every flag of `b` is in `a`.
pub open spec fn flags_contain(a: FlagBits, b: FlagBits) -> bool {
    &&& b.world_uniform ==> a.world_uniform
    &&& b.camera_uniform ==> a.camera_uniform
    &&& b.object_uniform ==> a.object_uniform
    &&& b.override_vertex_input ==> a.override_vertex_input
}

impl RenderPipelineFlags {
    /// No flag.
    pub fn empty() -> (f: Self)
        ensures
            !f@.world_uniform && !f@.camera_uniform && !f@.object_uniform && !f@.override_vertex_input,
    {
        RenderPipelineFlags {
            world_uniform: false,
            camera_uniform: false,
            object_uniform: false,
            override_vertex_input: false,
        }
    }

    /// Every flag.
    pub fn all() -> (f: Self)
        ensures
            f@.world_uniform && f@.camera_uniform && f@.object_uniform && f@.override_vertex_input,
    {
        RenderPipelineFlags {
            world_uniform: true,
            camera_uniform: true,
            object_uniform: true,
            override_vertex_input: true,
        }
    }

    /// The world-uniform flag alone.
    pub fn allow_world_uniform() -> (f: Self)
        ensures
            f@.world_uniform && !f@.camera_uniform && !f@.object_uniform && !f@.override_vertex_input,
    {
        RenderPipelineFlags { world_uniform: true, camera_uniform: false, object_uniform: false, override_vertex_input: false }
    }

    /// The camera-uniform flag alone.
    pub fn allow_camera_uniform() -> (f: Self)
        ensures
            !f@.world_uniform && f@.camera_uniform && !f@.object_uniform && !f@.override_vertex_input,
    {
        RenderPipelineFlags { world_uniform: false, camera_uniform: true, object_uniform: false, override_vertex_input: false }
    }

    /// The object-uniform flag alone.
    pub fn allow_object_uniform() -> (f: Self)
        ensures
            !f@.world_uniform && !f@.camera_uniform && f@.object_uniform && !f@.override_vertex_input,
    {
        RenderPipelineFlags { world_uniform: false, camera_uniform: false, object_uniform: true, override_vertex_input: false }
    }

    /// The vertex-input override flag alone.
    pub fn override_vertex_input() -> (f: Self)
        ensures
            !f@.world_uniform && !f@.camera_uniform && !f@.object_uniform && f@.override_vertex_input,
    {
        RenderPipelineFlags { world_uniform: false, camera_uniform: false, object_uniform: false, override_vertex_input: true }
    }

    /// Whether every flag of `other` is set in `self`.
    pub fn contains(&self, other: Self) -> (r: bool)
        ensures
            r == flags_contain(self@, other@),
    {
        (!other.world_uniform || self.world_uniform) && (!other.camera_uniform || self.camera_uniform) && (
        !other.object_uniform || self.object_uniform) && (!other.override_vertex_input
            || self.override_vertex_input)
    }

    /// The flags set in `self` or in `other`.
    pub fn union(self, other: Self) -> (f: Self)
        ensures
            f@.world_uniform == (self@.world_uniform || other@.world_uniform),
            f@.camera_uniform == (self@.camera_uniform || other@.camera_uniform),
            f@.object_uniform == (self@.object_uniform || other@.object_uniform),
            f@.override_vertex_input == (self@.override_vertex_input || other@.override_vertex_input),
    {
        RenderPipelineFlags {
            world_uniform: self.world_uniform || other.world_uniform,
            camera_uniform: self.camera_uniform || other.camera_uniform,
            object_uniform: self.object_uniform || other.object_uniform,
            override_vertex_input: self.override_vertex_input || other.override_vertex_input,
        }
    }

    /// The flags set in `self` and not in `other`.
    pub fn difference(self, other: Self) -> (f: Self)
        ensures
            f@.world_uniform == (self@.world_uniform && !other@.world_uniform),
            f@.camera_uniform == (self@.camera_uniform && !other@.camera_uniform),
            f@.object_uniform == (self@.object_uniform && !other@.object_uniform),
            f@.override_vertex_input == (self@.override_vertex_input && !other@.override_vertex_input),
    {
        RenderPipelineFlags {
            world_uniform: self.world_uniform && !other.world_uniform,
            camera_uniform: self.camera_uniform && !other.camera_uniform,
            object_uniform: self.object_uniform && !other.object_uniform,
            override_vertex_input: self.override_vertex_input && !other.override_vertex_input,
        }
    }

    /// Whether no flag is set.
    pub fn is_empty(&self) -> (r: bool)
        ensures
            r == !(self@.world_uniform || self@.camera_uniform || self@.object_uniform || self@.override_vertex_input),
    {
        !(self.world_uniform || self.camera_uniform || self.object_uniform || self.override_vertex_input)
    }

    /// The bit value of the flags.
    pub fn bits(&self) -> (b: u32)
        ensures
            b == bits_of(self@),
    {
        (if self.world_uniform { 1u32 } else { 0u32 }) + (if self.camera_uniform { 2u32 } else { 0u32 }) + (
        if self.object_uniform { 4u32 } else { 0u32 }) + (if self.override_vertex_input { 8u32 } else { 0u32 })
    }

    /// The flags whose bits are set in `bits`; other bits are dropped.
    pub fn from_bits_truncate(bits: u32) -> (f: Self)
        ensures
            f@.world_uniform == (bits & 1 != 0),
            f@.camera_uniform == (bits & 2 != 0),
            f@.object_uniform == (bits & 4 != 0),
            f@.override_vertex_input == (bits & 8 != 0),
    {
        RenderPipelineFlags {
            world_uniform: bits & 1 != 0,
            camera_uniform: bits & 2 != 0,
            object_uniform: bits & 4 != 0,
            override_vertex_input: bits & 8 != 0,
        }
    }
}

impl Default for RenderPipelineFlags {
    fn default() -> (f: Self)
        ensures
            !f@.world_uniform && !f@.camera_uniform && !f@.object_uniform && !f@.override_vertex_input,
    {
        Self::empty()
    }
}

/// The layout of a pipeline's bind groups and vertex buffers.
#[derive(PartialEq, Eq, Structural, Clone, Copy, Debug)]
pub struct LayoutPlan {
    /// Whether the camera's uniform group comes first.
    pub uniform_group: bool,
    /// The index of the texture group.
    pub texture_group_index: u32,
    /// Whether a per-instance buffer of model matrices follows the vertices.
    pub instance_buffer: bool,
}

/// A pipeline whose flags ask for anything beyond its own vertex input binds
/// the camera uniform group first and its textures second, else its textures
/// alone; it reads per-instance model matrices when it allows the object
/// uniform.
pub fn plan_layout(flags: RenderPipelineFlags) -> (p: LayoutPlan)
    ensures
        p.uniform_group == (flags@.world_uniform || flags@.camera_uniform || flags@.object_uniform),
        p.texture_group_index == (if p.uniform_group {
            1u32
        } else {
            0u32
        }),
        p.instance_buffer == flags@.object_uniform,
{
    let uniform_group = !flags.difference(RenderPipelineFlags::override_vertex_input()).is_empty();
    LayoutPlan {
        uniform_group,
        texture_group_index: if uniform_group {
            1
        } else {
            0
        },
        instance_buffer: flags.contains(RenderPipelineFlags::allow_object_uniform()),
    }
}

/// The bindings of a texture group: texture `i` at binding `i`, then the
/// sampler, when there is one, at the binding after the last texture.
pub fn texture_bindings(texture_count: usize, has_sampler: bool) -> (r: (Vec<u32>, Option<u32>))
    requires
        texture_count <= u32::MAX,
    ensures
        r.0@.len() == texture_count,
        forall|i: int| 0 <= i < texture_count ==> #[trigger] r.0@[i] == i,
        r.1 == (if has_sampler {
            Some(texture_count as u32)
        } else {
            None::<u32>
        }),
{
    let mut slots: Vec<u32> = Vec::new();
    let mut i: usize = 0;
    while i < texture_count
        invariant
            i <= texture_count <= u32::MAX,
            slots@.len() == i,
            forall|j: int| 0 <= j < i ==> #[trigger] slots@[j] == j,
        decreases texture_count - i,
    {
        slots.push(i as u32);
        i = i + 1;
    }
    let sampler = if has_sampler {
        Some(texture_count as u32)
    } else {
        None
    };
    (slots, sampler)
}

/// The component types of vertex attributes.
#[derive(PartialEq, Eq, Structural, Clone, Copy, Debug)]
pub enum AttributeFormat {
    Float32x2,
    Float32x3,
    Float32x4,
}

/// One vertex attribute: its shader location, its byte offset in the
/// vertex, and its type.
#[derive(PartialEq, Eq, Structural, Clone, Copy, Debug)]
pub struct AttributeSpec {
    pub location: u32,
    pub offset: u64,
    pub format: AttributeFormat,
}

/// The bytes between consecutive vertices: a position and texture
/// coordinates.
pub const VERTEX_STRIDE: u64 = 20;

/// The bytes between consecutive instances: one model matrix.
pub const INSTANCE_STRIDE: u64 = 64;

/// The per-vertex attributes: the position (three floats) at location 0 and
/// the texture coordinates (two floats) at location 1, right after it.
pub fn vertex_attributes() -> (r: Vec<AttributeSpec>)
    ensures
        r@ == seq![
            (AttributeSpec { location: 0, offset: 0, format: AttributeFormat::Float32x3 }),
            (AttributeSpec { location: 1, offset: 12, format: AttributeFormat::Float32x2 }),
        ],
{
    let mut r: Vec<AttributeSpec> = Vec::new();
    r.push(AttributeSpec { location: 0, offset: 0, format: AttributeFormat::Float32x3 });
    r.push(AttributeSpec { location: 1, offset: 12, format: AttributeFormat::Float32x2 });
    r
}

/// The per-instance attributes: the four columns of the model matrix at
/// locations 4 to 7, sixteen bytes apart.
pub fn instance_attributes() -> (r: Vec<AttributeSpec>)
    ensures
        r@.len() == 4,
        forall|i: int| 0 <= i < 4 ==> #[trigger] r@[i] == (AttributeSpec {
            location: (4 + i) as u32,
            offset: (16 * i) as u64,
            format: AttributeFormat::Float32x4,
        }),
{
    let mut r: Vec<AttributeSpec> = Vec::new();
    let mut i: u32 = 0;
    while i < 4
        invariant
            i <= 4,
            r@.len() == i,
            forall|j: int| 0 <= j < i ==> #[trigger] r@[j] == (AttributeSpec {
                location: (4 + j) as u32,
                offset: (16 * j) as u64,
                format: AttributeFormat::Float32x4,
            }),
        decreases 4 - i,
    {
        r.push(AttributeSpec { location: 4 + i, offset: 16 * (i as u64), format: AttributeFormat::Float32x4 });
        i = i + 1;
    }
    r
}

/// Each name sent to its position in `names`.
pub open spec fn position_map(names: Seq<Seq<char>>) -> Map<Seq<char>, u32> {
    Map::new(|k: Seq<char>| names.contains(k), |k: Seq<char>| names.index_of(k) as u32)
}

/// Every texture index below `count` sent to atlas binding 0.
pub open spec fn single_atlas_map(count: nat) -> Map<u32, u32> {
    Map::new(|k: u32| k < count, |k: u32| 0u32)
}

/// Each texture of `shader` gets the index of its position among the
/// shader's textures.
pub fn pipeline_texture_index_map(shader: &ParsedShader) -> (m: StrMap<u32>)
    requires
        shader.texture_references.keys_seq().len() <= u32::MAX,
    ensures
        m.keys_seq() == shader.texture_references.keys_seq(),
        m@ == position_map(shader.texture_references.keys_seq()),
{
    let names = shader.texture_names();
    let ghost ks = shader.texture_references.keys_seq();
    let mut m: StrMap<u32> = StrMap::new();
    let mut i: usize = 0;
    while i < names.len()
        invariant
            names@.len() == ks.len(),
            ks.len() <= u32::MAX,
            ks.no_duplicates(),
            forall|j: int| 0 <= j < names@.len() ==> (#[trigger] names@[j])@ == ks[j],
            i <= names@.len(),
            m.keys_seq() == ks.take(i as int),
            forall|j: int| 0 <= j < i ==> #[trigger] m@.contains_key(ks[j]) && m@[ks[j]] == j,
            forall|k: Seq<char>| m@.contains_key(k) ==> ks.take(i as int).contains(k),
        decreases names@.len() - i,
    {
        let name = names[i];
        let ghost k0 = m.keys_seq();
        assert(!k0.contains(ks[i as int])) by {
            if k0.contains(ks[i as int]) {
                let j = choose|j: int| 0 <= j < k0.len() && k0[j] == ks[i as int];
                assert(ks[j] == ks[i as int]);
            }
        }
        let present = m.contains_key(name.as_str());
        assert(!present);
        m.insert(name.clone(), i as u32);
        proof {
            assert(m.keys_seq() =~= ks.take(i + 1));
            assert forall|k: Seq<char>| m@.contains_key(k) implies ks.take(i + 1).contains(k) by {
                if k == ks[i as int] {
                    assert(ks.take(i + 1)[i as int] == k);
                } else {
                    assert(ks.take(i as int).contains(k));
                    let j = choose|j: int| 0 <= j < i && ks.take(i as int)[j] == k;
                    assert(ks.take(i + 1)[j] == k);
                }
            }
        }
        i = i + 1;
    }
    proof {
        assert(ks.take(ks.len() as int) =~= ks);
        assert forall|k: Seq<char>| m@.contains_key(k) <==> ks.contains(k) by {
            if ks.contains(k) {
                let j = choose|j: int| 0 <= j < ks.len() && ks[j] == k;
                assert(m@.contains_key(ks[j]));
            }
        }
        assert forall|k: Seq<char>| m@.contains_key(k) implies m@[k] == ks.index_of(k) as u32 by {
            let j = ks.index_of(k);
            assert(0 <= j < ks.len() && ks[j] == k);
            assert(m@[ks[j]] == j);
        }
        assert(m@ =~= position_map(ks));
    }
    m
}

/// Every texture index below `count` samples from the atlas at binding 0.
pub fn single_atlas_binding_map(count: usize) -> (m: HashMap<u32, u32>)
    requires
        count <= u32::MAX + 1,
    ensures
        m@ == single_atlas_map(count as nat),
{
    let mut m: HashMap<u32, u32> = HashMap::new();
    let mut i: usize = 0;
    while i < count
        invariant
            i <= count <= u32::MAX + 1,
            m@ == single_atlas_map(i as nat),
        decreases count - i,
    {
        m.insert(i as u32, 0);
        i = i + 1;
        assert(m@ =~= single_atlas_map(i as nat));
    }
    m
}

/// The binding attribute `@binding(<n>)`.
pub open spec fn binding_text(n: u32) -> Seq<char> {
    "@binding("@ + decimal(n as nat) + ")"@
}

/// `shader` with the bindings of the first `n` regions moved to their
/// atlases, one region after the other.
pub open spec fn rebound(shader: Seq<char>, rs: Seq<SampleRegion>, n: int) -> Seq<char>
    decreases n,
{
    if n <= 0 {
        shader
    } else {
        replaced(rebound(shader, rs, n - 1), binding_text(rs[n - 1].binding), binding_text(rs[n - 1].new_binding))
    }
}

/// The shader a pipeline runs, built from `source`: the rewrite of the
/// parsed source for `flags`, with each texture at its own index and every
/// index sampling atlas binding 0, its bindings moved by `remappings`, after
/// the remapping functions of `remappings`.
pub open spec fn pipeline_shader(
    source: Seq<char>,
    flags: FlagBits,
    texture_count: nat,
    remappings: Seq<SampleRegion>,
) -> Seq<char> {
    let model = parse_model(source);
    let names = texture_names_of(source);
    let rewritten = rewritten_shader(
        model.declarations,
        model.texture_references,
        flags,
        names,
        position_map(names),
        single_atlas_map(texture_count),
    );
    sample_functions_text(remappings, remappings.len() as int) + rebound(rewritten, remappings, remappings.len() as int)
}

/// The text of `@binding(<n>)`.
fn binding_string(n: u32) -> (s: String)
    ensures
        s@ == binding_text(n),
{
    let mut s = String::new();
    push_str(&mut s, "@binding(");
    push_decimal(&mut s, n as u64);
    push_str(&mut s, ")");
    s
}

/// The shader code of a pipeline for `source` with `flags`, `texture_count`
/// textures and `remappings` (see `pipeline_shader`).
pub fn pipeline_shader_code(
    source: &str,
    flags: RenderPipelineFlags,
    texture_count: usize,
    remappings: &[SampleRegion],
) -> (code: String)
    requires
        bindings_fit(source@),
        texture_count <= u32::MAX + 1,
        texture_names_of(source@).len() <= u32::MAX,
    ensures
        code@ == pipeline_shader(source@, flags@, texture_count as nat, remappings@),
{
    let parsed = ParsedShader::parse(source);
    let index_map = pipeline_texture_index_map(&parsed);
    let atlas_map = single_atlas_binding_map(texture_count);
    let mut shader = ShaderRewriter::rewrite_shader(&parsed, flags, &index_map, &atlas_map);
    let ghost rewritten = shader@;
    let mut i: usize = 0;
    while i < remappings.len()
        invariant
            i <= remappings@.len(),
            shader@ == rebound(rewritten, remappings@, i as int),
        decreases remappings@.len() - i,
    {
        let from = binding_string(remappings[i].binding);
        let to = binding_string(remappings[i].new_binding);
        shader = replace_text(shader.as_str(), from.as_str(), to.as_str());
        i = i + 1;
    }
    let mut code = ShaderMerger::generate_texture_sample_functions(remappings);
    push_str(&mut code, shader.as_str());
    code
}

/// The shader code of a pipeline (see `pipeline_shader`) when the binding
/// numbers of `source`, its number of texture names and `texture_count` fit
/// in a `u32` (`texture_count` may be one more, as it counts indices);
/// `None` otherwise.
pub fn try_pipeline_shader_code(
    source: &str,
    flags: RenderPipelineFlags,
    texture_count: usize,
    remappings: &[SampleRegion],
) -> (code: Option<String>)
    ensures
        code is Some <==> {
            &&& bindings_fit(source@)
            &&& texture_count <= u32::MAX + 1
            &&& texture_names_of(source@).len() <= u32::MAX
        },
        code matches Some(c) ==> c@ == pipeline_shader(source@, flags@, texture_count as nat, remappings@),
{
    let parsed = match ParsedShader::try_parse(source) {
        Some(p) => p,
        None => return None,
    };
    let names = parsed.texture_references.len();
    if names as u64 > 0xffff_ffff || texture_count as u64 > 0x1_0000_0000 {
        return None;
    }
    Some(pipeline_shader_code(source, flags, texture_count, remappings))
}

} // verus!
