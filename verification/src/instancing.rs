//! The bookkeeping of an instanced render: the shader variants of its meshes,
//! when its pipeline is built, how its instance buffers grow, and how its
//! textures map onto atlases and atlas bindings.
use crate::render_pipeline::{position_map, RenderPipelineFlags, FlagBits};
use crate::shader_merger::{first_entry, merged_text, SampleRegion, ShaderMerger};
use crate::shader_parser::{bindings_fit, parse_model, texture_names_of, ParsedModel, ParsedShader};
use crate::shader_rewriter::{rewritten_shader, ShaderRewriter};
use crate::str_map::StrMap;
use std::collections::HashMap;
use vstd::prelude::*;

verus! {

broadcast use vstd::std_specs::hash::group_hash_axioms;

/// The size in bytes of one instance's model matrix (four columns of four
/// 32-bit floats).
pub const MODEL_MATRIX_BYTES: usize = 64;

/// The texts of a list of strings.
pub open spec fn texts(v: Seq<String>) -> Seq<Seq<char>> {
    v.map_values(|s: String| s@)
}

/// The elements of `s` in the order of their first occurrence.
pub open spec fn first_occurrences<A>(s: Seq<A>) -> Seq<A>
    decreases s.len(),
{
    if s.len() == 0 {
        Seq::empty()
    } else {
        let d = first_occurrences(s.drop_last());
        if d.contains(s.last()) {
            d
        } else {
            d.push(s.last())
        }
    }
}

/// `first_occurrences` holds each element of `s` exactly once.
pub proof fn lemma_first_occurrences<A>(s: Seq<A>)
    ensures
        first_occurrences(s).no_duplicates(),
        forall|x: A| first_occurrences(s).contains(x) <==> s.contains(x),
    decreases s.len(),
{
    if s.len() > 0 {
        let p = s.drop_last();
        lemma_first_occurrences(p);
        let d = first_occurrences(p);
        let f = first_occurrences(s);
        if d.contains(s.last()) {
            assert(f == d);
        } else {
            assert(f == d.push(s.last()));
            assert(f[f.len() - 1] == s.last());
            assert forall|a: int, b: int| 0 <= a < f.len() && 0 <= b < f.len() && a != b implies f[a] != f[b] by {
                if a < d.len() && b < d.len() {
                    assert(f[a] == d[a] && f[b] == d[b]);
                } else if a < d.len() {
                    assert(f[a] == d[a]);
                    assert(d.contains(d[a]));
                } else {
                    assert(f[b] == d[b]);
                    assert(d.contains(d[b]));
                }
            }
        }
        assert forall|x: A| f.contains(x) <==> s.contains(x) by {
            if s.contains(x) {
                let i = choose|i: int| 0 <= i < s.len() && s[i] == x;
                if i < s.len() - 1 {
                    assert(p[i] == x);
                    assert(p.contains(x));
                    assert(d.contains(x));
                    let k = choose|k: int| 0 <= k < d.len() && d[k] == x;
                    assert(f[k] == x);
                } else {
                    assert(x == s.last());
                    if d.contains(x) {
                        let k = choose|k: int| 0 <= k < d.len() && d[k] == x;
                        assert(f[k] == x);
                    } else {
                        assert(f[f.len() - 1] == x);
                    }
                }
            }
            if f.contains(x) {
                let k = choose|k: int| 0 <= k < f.len() && f[k] == x;
                if k < d.len() {
                    assert(d[k] == x);
                    assert(d.contains(x));
                    assert(p.contains(x));
                    let i = choose|i: int| 0 <= i < p.len() && p[i] == x;
                    assert(p[i] == s[i]);
                } else {
                    assert(x == s.last());
                    assert(s[s.len() - 1] == x);
                }
            }
        }
    }
}

/// The sources after registering `x`: unchanged when `x` is among them, else
/// with `x` added last.
pub open spec fn registered(v: Seq<Seq<char>>, x: Seq<char>) -> Seq<Seq<char>> {
    if v.contains(x) {
        v
    } else {
        v.push(x)
    }
}

/// Registering a source a second time changes nothing and answers the id
/// that the first registration answered.
pub proof fn lemma_register_again(v: Seq<Seq<char>>, x: Seq<char>, first: int, second: int)
    requires
        registered(v, x).no_duplicates(),
        0 <= first < registered(v, x).len(),
        registered(v, x)[first] == x,
        0 <= second < registered(registered(v, x), x).len(),
        registered(registered(v, x), x)[second] == x,
    ensures
        registered(registered(v, x), x) == registered(v, x),
        first == second,
{
    assert(registered(v, x).contains(x));
}

/// Sources that a map sends each to its own position occur once each.
proof fn lemma_distinct_sources(sources: Seq<String>, ids: Map<Seq<char>, u32>)
    requires
        forall|i: int|
            0 <= i < sources.len() ==> #[trigger] ids.contains_key(sources[i]@) && ids[sources[i]@]
                == i,
    ensures
        texts(sources).no_duplicates(),
{
    assert forall|i: int, j: int|
        0 <= i < texts(sources).len() && 0 <= j < texts(sources).len() && i != j implies texts(
        sources,
    )[i] != texts(sources)[j] by {
        assert(ids.contains_key(sources[i]@));
        assert(ids.contains_key(sources[j]@));
    }
}

/// The shader sources of an instanced render; the id of a source is its
/// position among the distinct sources, in the order they were registered.
pub struct ShaderVariants {
    sources: Vec<String>,
    ids: StrMap<u32>,
}

impl View for ShaderVariants {
    type V = Seq<Seq<char>>;

    closed spec fn view(&self) -> Seq<Seq<char>> {
        texts(self.sources@)
    }
}

impl ShaderVariants {
    #[verifier::type_invariant]
    spec fn inv(self) -> bool {
        &&& self.sources@.len() <= u32::MAX + 1
        &&& self.ids.keys_seq() == texts(self.sources@)
        &&& forall|i: int|
            0 <= i < self.sources@.len() ==> #[trigger] self.ids@.contains_key(self.sources@[i]@)
                && self.ids@[self.sources@[i]@] == i
    }

    /// No variants yet.
    pub fn new() -> (v: Self)
        ensures
            v@ == Seq::<Seq<char>>::empty(),
    {
        let sources: Vec<String> = Vec::new();
        let ids: StrMap<u32> = StrMap::new();
        assert(texts(sources@) =~= Seq::<Seq<char>>::empty());
        ShaderVariants { sources, ids }
    }

    /// The number of distinct sources.
    pub fn len(&self) -> (n: usize)
        ensures
            n == self@.len(),
    {
        self.sources.len()
    }

    /// The sources, in the order of their ids.
    pub fn sources(&self) -> (r: &Vec<String>)
        ensures
            texts(r@) == self@,
    {
        &self.sources
    }

    /// The id of `source`: the id it already has, or else the next id, with
    /// `source` recorded under it.
    pub fn register(&mut self, source: String) -> (id: u32)
        requires
            old(self)@.len() <= u32::MAX,
        ensures
            old(self)@.contains(source@) ==> final(self)@ == old(self)@ && old(self)@[id as int]
                == source@,
            !old(self)@.contains(source@) ==> final(self)@ == old(self)@.push(source@) && id
                == old(self)@.len(),
            final(self)@ == registered(old(self)@, source@),
            id < final(self)@.len(),
            final(self)@[id as int] == source@,
            final(self)@.no_duplicates(),
    {
        proof {
            use_type_invariant(&*self);
            assert(self.inv());
            lemma_distinct_sources(self.sources@, self.ids@);
        }
        let found = self.ids.get(source.as_str());
        match found {
            Some(id) => {
                let id = *id;
                proof {
                    let ks = self.ids.keys_seq();
                    let i = choose|i: int| 0 <= i < ks.len() && ks[i] == source@;
                    assert(self.sources@[i]@ == source@);
                    assert(self.ids@[self.sources@[i]@] == i);
                    assert(id == i);
                    assert(self@.contains(source@));
                }
                id
            },
            None => {
                proof {
                    if self@.contains(source@) {
                        let i = choose|i: int| 0 <= i < self@.len() && self@[i] == source@;
                        assert(self.ids@.contains_key(self.sources@[i]@));
                    }
                }
                let id = self.sources.len() as u32;
                let ghost s0 = self.sources@;
                let ghost m0 = self.ids@;
                let key = source.clone();
                let mut taken = ShaderVariants::new();
                std::mem::swap(self, &mut taken);
                let ShaderVariants { mut sources, mut ids } = taken;
                let ghost k0 = ids.keys_seq();
                assert(k0 == texts(s0));
                assert(!ids@.contains_key(key@));
                sources.push(source);
                ids.insert(key, id);
                proof {
                    assert(ids.keys_seq() == k0.push(key@));
                    assert(texts(sources@) =~= texts(s0).push(sources@[s0.len() as int]@));
                    assert forall|i: int| 0 <= i < sources@.len() implies #[trigger] ids@.contains_key(
                        sources@[i]@,
                    ) && ids@[sources@[i]@] == i by {
                        if i < s0.len() {
                            assert(s0[i]@ != sources@[s0.len() as int]@) by {
                                assert(m0.contains_key(s0[i]@));
                            }
                        }
                    }
                    lemma_distinct_sources(sources@, ids@);
                    assert(texts(s0).len() == s0.len());
                    let v = ShaderVariants { sources: sources, ids: ids };
                    assert(v.inv());
                }
                *self = ShaderVariants { sources, ids };
                id
            },
        }
    }
}

/// What an instanced render does about its pipeline after a mesh joined it.
#[derive(PartialEq, Eq, Structural, Clone, Copy, Debug)]
pub enum PipelineAction {
    /// Nothing changes.
    Keep,
    /// Build the pipeline of its one shader variant.
    CreateSimple,
    /// Build again the merged pipeline of all its shader variants.
    RegenerateMerged,
}

/// With more than one shader variant the merged pipeline is built again; with
/// one variant and no pipeline yet, that variant's pipeline is built.
pub fn pipeline_action(variant_count: usize, has_simple_pipeline: bool) -> (a: PipelineAction)
    ensures
        a == (if variant_count > 1 {
            PipelineAction::RegenerateMerged
        } else if variant_count == 1 && !has_simple_pipeline {
            PipelineAction::CreateSimple
        } else {
            PipelineAction::Keep
        }),
{
    if variant_count > 1 {
        PipelineAction::RegenerateMerged
    } else if variant_count == 1 && !has_simple_pipeline {
        PipelineAction::CreateSimple
    } else {
        PipelineAction::Keep
    }
}

/// How instance matrices are uploaded.
#[derive(PartialEq, Eq, Structural, Clone, Copy, Debug)]
pub struct InstanceUpload {
    /// Every frame slot gets a new buffer of `buffer_size` bytes.
    pub reallocate_all: bool,
    /// Only the written slot gets a new buffer of `buffer_size` bytes.
    pub allocate_slot: bool,
    /// The capacity, in instances, after the upload.
    pub capacity: usize,
    /// The size of a new buffer.
    pub buffer_size: u64,
    /// Where in the slot's buffer the matrices are written.
    pub byte_offset: u64,
}

/// The plan for writing `count` matrices at instance `offset` of a frame slot,
/// with buffers that hold `capacity` instances and a slot that has a buffer
/// when `slot_present`. Nothing is written when there are no matrices; when
/// the capacity is too small every slot gets a buffer for `count` instances;
/// else a slot without a buffer gets one.
pub fn plan_instance_upload(capacity: usize, count: usize, slot_present: bool, offset: usize) -> (r:
    Option<InstanceUpload>)
    requires
        count * MODEL_MATRIX_BYTES <= usize::MAX,
        offset * MODEL_MATRIX_BYTES <= usize::MAX,
    ensures
        count == 0 <==> r is None,
        r matches Some(u) ==> {
            &&& u.reallocate_all == (capacity < count)
            &&& u.allocate_slot == (capacity >= count && !slot_present)
            &&& u.capacity == (if capacity < count {
                count
            } else {
                capacity
            })
            &&& u.buffer_size == count * MODEL_MATRIX_BYTES
            &&& u.byte_offset == offset * MODEL_MATRIX_BYTES
        },
{
    if count == 0 {
        return None;
    }
    let buffer_size = (count * MODEL_MATRIX_BYTES) as u64;
    let byte_offset = (offset * MODEL_MATRIX_BYTES) as u64;
    if capacity < count {
        Some(
            InstanceUpload {
                reallocate_all: true,
                allocate_slot: false,
                capacity: count,
                buffer_size,
                byte_offset,
            },
        )
    } else {
        Some(
            InstanceUpload {
                reallocate_all: false,
                allocate_slot: !slot_present,
                capacity,
                buffer_size,
                byte_offset,
            },
        )
    }
}

/// The atlases used by a list of sprites, each once, in the order they first
/// appear, and for each sprite the position of its atlas in that list.
pub fn atlas_mapping(atlas_ids: &Vec<u64>) -> (r: (Vec<u64>, Vec<usize>))
    ensures
        r.0@ == first_occurrences(atlas_ids@),
        r.0@.no_duplicates(),
        r.1@.len() == atlas_ids@.len(),
        forall|i: int| 0 <= i < atlas_ids@.len() ==> #[trigger] r.1@[i] < r.0@.len() && r.0@[r.1@[i] as int] == atlas_ids@[i],
{
    let mut atlases: Vec<u64> = Vec::new();
    let mut index: Vec<usize> = Vec::new();
    let mut i: usize = 0;
    while i < atlas_ids.len()
        invariant
            i <= atlas_ids@.len(),
            atlases@ == first_occurrences(atlas_ids@.take(i as int)),
            atlases@.no_duplicates(),
            index@.len() == i,
            forall|j: int| 0 <= j < i ==> #[trigger] index@[j] < atlases@.len() && atlases@[index@[j] as int] == atlas_ids@[j],
        decreases atlas_ids@.len() - i,
    {
        let id = atlas_ids[i];
        let ghost prefix = atlas_ids@.take(i as int);
        let ghost next = atlas_ids@.take(i + 1);
        assert(next.drop_last() =~= prefix);
        assert(next.last() == id);
        let mut k: usize = 0;
        while k < atlases.len() && atlases[k] != id
            invariant
                k <= atlases@.len(),
                forall|q: int| 0 <= q < k ==> atlases@[q] != id,
            decreases atlases@.len() - k,
        {
            k = k + 1;
        }
        if k < atlases.len() {
            assert(atlases@[k as int] == id);
            assert(atlases@.contains(id));
            index.push(k);
        } else {
            assert(!atlases@.contains(id));
            let n = atlases.len();
            atlases.push(id);
            index.push(n);
            assert forall|a: int, b: int| 0 <= a < atlases@.len() && 0 <= b < atlases@.len() && a != b implies atlases@[a] != atlases@[b] by {
                if a < n && b < n {
                } else if a < n {
                    assert(atlases@[b] == id);
                    assert(atlases@[a] == atlases@.drop_last()[a]);
                } else {
                    assert(atlases@[a] == id);
                    assert(atlases@[b] == atlases@.drop_last()[b]);
                }
            }
        }
        i = i + 1;
    }
    assert(atlas_ids@.take(atlas_ids@.len() as int) =~= atlas_ids@);
    (atlases, index)
}

/// The texture names of shaders `0..n`, each shader's names in its own order.
pub open spec fn names_upto(shaders: Seq<ParsedShader>, n: int) -> Seq<Seq<char>>
    decreases n,
{
    if n <= 0 {
        Seq::empty()
    } else {
        names_upto(shaders, n - 1) + shaders[n - 1].texture_references.keys_seq()
    }
}

/// One global index per distinct texture name of the shaders, counted in the
/// order the names first appear.
pub fn texture_index_map(shaders: &Vec<ParsedShader>) -> (m: StrMap<u32>)
    requires
        names_upto(shaders@, shaders@.len() as int).len() <= u32::MAX,
    ensures
        m.keys_seq() == first_occurrences(names_upto(shaders@, shaders@.len() as int)),
        forall|i: int| 0 <= i < m.keys_seq().len() ==> #[trigger] m@[m.keys_seq()[i]] == i,
        forall|k: Seq<char>| m@.contains_key(k) <==> m.keys_seq().contains(k),
{
    let mut m: StrMap<u32> = StrMap::new();
    let mut s: usize = 0;
    while s < shaders.len()
        invariant
            s <= shaders@.len(),
            names_upto(shaders@, shaders@.len() as int).len() <= u32::MAX,
            m.keys_seq() == first_occurrences(names_upto(shaders@, s as int)),
            forall|i: int| 0 <= i < m.keys_seq().len() ==> #[trigger] m@[m.keys_seq()[i]] == i,
            forall|k: Seq<char>| m@.contains_key(k) <==> m.keys_seq().contains(k),
        decreases shaders@.len() - s,
    {
        let names = shaders[s].texture_names();
        let ghost before = names_upto(shaders@, s as int);
        let ghost own = shaders@[s as int].texture_references.keys_seq();
        proof {
            lemma_names_upto_monotone(shaders@, s as int + 1, shaders@.len() as int);
        }
        let mut t: usize = 0;
        while t < names.len()
            invariant
                s < shaders@.len(),
                t <= names@.len(),
                names@.len() == own.len(),
                forall|i: int| 0 <= i < names@.len() ==> (#[trigger] names@[i])@ == own[i],
                before + own == names_upto(shaders@, s as int + 1),
                names_upto(shaders@, s as int + 1).len() <= u32::MAX,
                m.keys_seq() == first_occurrences(before + own.take(t as int)),
                forall|i: int| 0 <= i < m.keys_seq().len() ==> #[trigger] m@[m.keys_seq()[i]] == i,
                forall|k: Seq<char>| m@.contains_key(k) <==> m.keys_seq().contains(k),
            decreases names@.len() - t,
        {
            let name = names[t];
            let ghost cur = before + own.take(t as int);
            let ghost nxt = before + own.take(t + 1);
            assert(nxt.drop_last() =~= cur);
            assert(nxt.last() == name@);
            proof {
                lemma_first_occurrences(cur);
                assert(m.keys_seq().len() <= cur.len()) by {
                    lemma_dedup_len(cur);
                }
            }
            if !m.contains_key(name.as_str()) {
                let index = m.len() as u32;
                let ghost k0 = m.keys_seq();
                m.insert(name.clone(), index);
                proof {
                    assert forall|i: int| 0 <= i < m.keys_seq().len() implies #[trigger] m@[m.keys_seq()[i]] == i by {
                        if i < k0.len() {
                            assert(k0[i] != name@) by {
                                assert(k0.contains(k0[i]));
                            }
                        }
                    }
                }
            }
            t = t + 1;
        }
        assert(own.take(own.len() as int) =~= own);
        s = s + 1;
    }
    m
}

/// Taking more shaders never drops names.
proof fn lemma_names_upto_monotone(shaders: Seq<ParsedShader>, a: int, b: int)
    requires
        0 <= a <= b,
    ensures
        names_upto(shaders, a).len() <= names_upto(shaders, b).len(),
    decreases b - a,
{
    if a < b {
        lemma_names_upto_monotone(shaders, a, b - 1);
    }
}

/// `first_occurrences` is no longer than its argument.
proof fn lemma_dedup_len<A>(s: Seq<A>)
    ensures
        first_occurrences(s).len() <= s.len(),
    decreases s.len(),
{
    if s.len() > 0 {
        lemma_dedup_len(s.drop_last());
    }
}

/// Texture `i` samples from the atlas at binding `atlas_index[i]`.
pub fn atlas_binding_map(atlas_index: &Vec<usize>) -> (m: HashMap<u32, u32>)
    requires
        atlas_index@.len() <= u32::MAX + 1,
        forall|i: int| 0 <= i < atlas_index@.len() ==> #[trigger] atlas_index@[i] <= u32::MAX,
    ensures
        forall|k: u32| #[trigger] m@.contains_key(k) <==> k < atlas_index@.len(),
        forall|k: u32| k < atlas_index@.len() ==> #[trigger] m@[k] == atlas_index@[k as int],
{
    let mut m: HashMap<u32, u32> = HashMap::new();
    let mut i: usize = 0;
    while i < atlas_index.len()
        invariant
            i <= atlas_index@.len(),
            atlas_index@.len() <= u32::MAX + 1,
            forall|i: int| 0 <= i < atlas_index@.len() ==> #[trigger] atlas_index@[i] <= u32::MAX,
            forall|k: u32| #[trigger] m@.contains_key(k) <==> k < i,
            forall|k: u32| k < i ==> #[trigger] m@[k] == atlas_index@[k as int],
        decreases atlas_index@.len() - i,
    {
        m.insert(i as u32, atlas_index[i] as u32);
        i = i + 1;
    }
    m
}

/// The texture names of the first `n` sources, each source's names in the
/// order of their first declaration.
pub open spec fn variant_names(srcs: Seq<Seq<char>>, n: int) -> Seq<Seq<char>>
    decreases n,
{
    if n <= 0 {
        Seq::empty()
    } else {
        variant_names(srcs, n - 1) + texture_names_of(srcs[n - 1])
    }
}

/// Texture `k` samples the atlas at binding `atlas_index[k]`.
pub open spec fn atlas_index_map(atlas_index: Seq<usize>) -> Map<u32, u32> {
    Map::new(|k: u32| k < atlas_index.len(), |k: u32| atlas_index[k as int] as u32)
}

/// The rewrite of one variant for `flags`, with texture indices from `names`
/// and atlas bindings from `atlas`.
pub open spec fn rewritten_variant(
    src: Seq<char>,
    flags: FlagBits,
    names: Seq<Seq<char>>,
    atlas: Map<u32, u32>,
) -> Seq<char> {
    let m = parse_model(src);
    rewritten_shader(m.declarations, m.texture_references, flags, names, position_map(names), atlas)
}

/// The parses of the sources.
pub open spec fn variant_models(srcs: Seq<Seq<char>>) -> Seq<ParsedModel> {
    srcs.map_values(|s: Seq<char>| parse_model(s))
}

/// The merged shader of an instanced render: each variant rewritten with one
/// global index per distinct texture name and the atlas binding of each
/// texture, then all merged with the remapping functions of `regions` and
/// `atlas_count` atlases.
pub open spec fn merged_variants(
    srcs: Seq<Seq<char>>,
    flags: FlagBits,
    atlas_index: Seq<usize>,
    regions: Seq<SampleRegion>,
    atlas_count: int,
) -> Seq<char> {
    let names = first_occurrences(variant_names(srcs, srcs.len() as int));
    let atlas = atlas_index_map(atlas_index);
    merged_text(
        Seq::new(srcs.len(), |i: int| rewritten_variant(srcs[i], flags, names, atlas)),
        variant_models(srcs),
        regions,
        atlas_count,
    )
}

/// The shader of an instanced render's merged pipeline for the variant
/// sources `sources` (see `merged_variants`).
pub fn merged_variant_shader(
    sources: &Vec<String>,
    flags: RenderPipelineFlags,
    atlas_index: &Vec<usize>,
    regions: &[SampleRegion],
    atlas_count: usize,
) -> (code: String)
    requires
        forall|i: int| 0 <= i < sources@.len() ==> bindings_fit(#[trigger] sources@[i]@),
        variant_names(texts(sources@), sources@.len() as int).len() <= u32::MAX,
        atlas_index@.len() <= u32::MAX + 1,
        forall|i: int| 0 <= i < atlas_index@.len() ==> #[trigger] atlas_index@[i] <= u32::MAX,
        first_entry(variant_models(texts(sources@)), true) is Some,
        first_entry(variant_models(texts(sources@)), false) is Some,
        atlas_count <= u32::MAX + 1,
    ensures
        code@ == merged_variants(texts(sources@), flags@, atlas_index@, regions@, atlas_count as int),
{
    let ghost srcs = texts(sources@);
    let mut parsed: Vec<ParsedShader> = Vec::new();
    let mut i: usize = 0;
    while i < sources.len()
        invariant
            srcs == texts(sources@),
            forall|j: int| 0 <= j < sources@.len() ==> bindings_fit(#[trigger] sources@[j]@),
            i <= sources@.len(),
            parsed@.len() == i,
            forall|j: int| 0 <= j < i ==> (#[trigger] parsed@[j])@ == parse_model(srcs[j]),
            forall|j: int| 0 <= j < i ==> (#[trigger] parsed@[j]).texture_references.keys_seq() == texture_names_of(srcs[j]),
        decreases sources@.len() - i,
    {
        let p = ParsedShader::parse(sources[i].as_str());
        parsed.push(p);
        i = i + 1;
    }
    proof {
        lemma_names_match(parsed@, srcs, parsed@.len() as int);
        assert(crate::shader_merger::models_of(parsed@) =~= variant_models(srcs));
    }
    let index_map = texture_index_map(&parsed);
    let atlas_map = atlas_binding_map(atlas_index);
    let ghost names = first_occurrences(variant_names(srcs, srcs.len() as int));
    proof {
        lemma_first_occurrences(variant_names(srcs, srcs.len() as int));
        lemma_index_map_positions(index_map, names);
        assert(atlas_map@ =~= atlas_index_map(atlas_index@));
    }
    let mut rewritten: Vec<String> = Vec::new();
    let mut k: usize = 0;
    while k < parsed.len()
        invariant
            srcs == texts(sources@),
            parsed@.len() == srcs.len(),
            forall|j: int| 0 <= j < parsed@.len() ==> (#[trigger] parsed@[j])@ == parse_model(srcs[j]),
            index_map.keys_seq() == names,
            index_map@ == position_map(names),
            atlas_map@ == atlas_index_map(atlas_index@),
            k <= parsed@.len(),
            rewritten@.len() == k,
            forall|j: int| 0 <= j < k ==> (#[trigger] rewritten@[j])@ == rewritten_variant(srcs[j], flags@, names, atlas_map@),
        decreases parsed@.len() - k,
    {
        let r = ShaderRewriter::rewrite_shader(&parsed[k], flags, &index_map, &atlas_map);
        rewritten.push(r);
        k = k + 1;
    }
    proof {
        assert(crate::shader_merger::texts_of(rewritten@) =~= Seq::new(
            srcs.len(),
            |j: int| rewritten_variant(srcs[j], flags@, names, atlas_index_map(atlas_index@)),
        ));
    }
    ShaderMerger::merge_shaders(&rewritten, &parsed, regions, atlas_count)
}

/// The shader of an instanced render's merged pipeline (see
/// `merged_variants`) when every source's binding numbers fit in a `u32`,
/// the texture names of all sources together are at most `u32::MAX`, the
/// atlas bindings and counts fit in a `u32`, and some source has a vertex
/// entry point and some source a fragment entry point; `None` otherwise.
pub fn try_merged_variant_shader(
    sources: &Vec<String>,
    flags: RenderPipelineFlags,
    atlas_index: &Vec<usize>,
    regions: &[SampleRegion],
    atlas_count: usize,
) -> (code: Option<String>)
    ensures
        code is Some <==> {
            &&& forall|i: int| 0 <= i < sources@.len() ==> bindings_fit(#[trigger] sources@[i]@)
            &&& variant_names(texts(sources@), sources@.len() as int).len() <= u32::MAX
            &&& atlas_index@.len() <= u32::MAX + 1
            &&& forall|i: int| 0 <= i < atlas_index@.len() ==> #[trigger] atlas_index@[i] <= u32::MAX
            &&& first_entry(variant_models(texts(sources@)), true) is Some
            &&& first_entry(variant_models(texts(sources@)), false) is Some
            &&& atlas_count <= u32::MAX + 1
        },
        code matches Some(c) ==> c@ == merged_variants(
            texts(sources@),
            flags@,
            atlas_index@,
            regions@,
            atlas_count as int,
        ),
{
    let ghost srcs = texts(sources@);
    let mut parsed: Vec<ParsedShader> = Vec::new();
    let mut total: u64 = 0;
    let mut i: usize = 0;
    while i < sources.len()
        invariant
            srcs == texts(sources@),
            i <= sources@.len(),
            parsed@.len() == i,
            forall|j: int| 0 <= j < i ==> bindings_fit(#[trigger] sources@[j]@),
            forall|j: int| 0 <= j < i ==> (#[trigger] parsed@[j])@ == parse_model(srcs[j]),
            total == variant_names(srcs, i as int).len(),
            total <= u32::MAX,
        decreases sources@.len() - i,
    {
        let p = match ParsedShader::try_parse(sources[i].as_str()) {
            Some(p) => p,
            None => return None,
        };
        let k = p.texture_references.len();
        assert(variant_names(srcs, i + 1) == variant_names(srcs, i as int) + texture_names_of(srcs[i as int]));
        if k as u64 > 0xffff_ffff - total {
            proof {
                lemma_variant_names_grow(srcs, i + 1, srcs.len() as int);
            }
            return None;
        }
        total = total + k as u64;
        parsed.push(p);
        i = i + 1;
    }
    if atlas_index.len() as u64 > 0x1_0000_0000 || atlas_count as u64 > 0x1_0000_0000 {
        return None;
    }
    let mut j: usize = 0;
    while j < atlas_index.len()
        invariant
            j <= atlas_index@.len(),
            forall|x: int| 0 <= x < j ==> #[trigger] atlas_index@[x] <= u32::MAX,
        decreases atlas_index@.len() - j,
    {
        if atlas_index[j] as u64 > 0xffff_ffff {
            return None;
        }
        j = j + 1;
    }
    proof {
        assert(crate::shader_merger::models_of(parsed@) =~= variant_models(srcs));
    }
    if ShaderMerger::first_entry_index(&parsed, true).is_none() || ShaderMerger::first_entry_index(
        &parsed,
        false,
    ).is_none() {
        return None;
    }
    Some(merged_variant_shader(sources, flags, atlas_index, regions, atlas_count))
}

/// The texture names of the first `i` sources are no more than those of the
/// first `n`, for `i <= n`.
proof fn lemma_variant_names_grow(srcs: Seq<Seq<char>>, i: int, n: int)
    requires
        0 <= i <= n,
    ensures
        variant_names(srcs, i).len() <= variant_names(srcs, n).len(),
    decreases n - i,
{
    if i < n {
        lemma_variant_names_grow(srcs, i, n - 1);
    }
}

/// The names of the parsed variants are those of their sources.
proof fn lemma_names_match(parsed: Seq<ParsedShader>, srcs: Seq<Seq<char>>, n: int)
    requires
        0 <= n <= parsed.len() == srcs.len(),
        forall|j: int| 0 <= j < parsed.len() ==> (#[trigger] parsed[j]).texture_references.keys_seq() == texture_names_of(srcs[j]),
    ensures
        names_upto(parsed, n) == variant_names(srcs, n),
    decreases n,
{
    if n > 0 {
        lemma_names_match(parsed, srcs, n - 1);
    }
}

/// A map that sends each of the distinct `names` to its position is the
/// position map of `names`.
proof fn lemma_index_map_positions(m: StrMap<u32>, names: Seq<Seq<char>>)
    requires
        names.no_duplicates(),
        m.keys_seq() == names,
        forall|i: int| 0 <= i < m.keys_seq().len() ==> #[trigger] m@[m.keys_seq()[i]] == i,
        forall|k: Seq<char>| m@.contains_key(k) <==> m.keys_seq().contains(k),
    ensures
        m@ == position_map(names),
{
    assert forall|k: Seq<char>| m@.contains_key(k) implies m@[k] == names.index_of(k) as u32 by {
        let j = names.index_of(k);
        assert(names.contains(k));
        assert(0 <= j < names.len() && names[j] == k);
        assert(m@[names[j]] == j);
    }
    assert(m@ =~= position_map(names));
}

} // verus!
