//! Parsing of WGSL shader source into its top-level declarations: structs,
//! bound global variables and functions, with the vertex and fragment entry
//! points and the texture bindings the shader refers to.

use vstd::prelude::*;
use crate::pattern::{find_matches, matches_of, spans_in_bounds, GroupSpans};
use crate::str_map::{text_eq, StrMap};
use crate::text::{find_arrow, find_arrow_exec, find_matching_close, lemma_find_arrow, lemma_matching_close, matching_close, contains_exec, find_from_exec, parse_u32, chars_of, find_char_exec, string_without_spaces, is_whitespace, string_of, trimmed, contains_seq, find_char_from, find_seq, is_white_space, parse_u32_of, trim_of, without_spaces};

verus! {

/// A struct declaration: its name, then a body without nested braces.
pub const STRUCT_PATTERN: &'static str = r"struct\s+(\w+)\s*\{[^}]*\}";

/// A global variable with a group and a binding: group, binding, name, type.
pub const GLOBAL_PATTERN: &'static str = r"@group\((\d+)\)\s*@binding\((\d+)\)\s*var\s+(\w+)\s*:\s*([^;]+);";

/// The head of a function up to its opening parenthesis: its name.
pub const FN_PATTERN: &'static str = r"\bfn\s+(\w+)\s*\(";

/// One parameter: an optional attribute with an argument, the name, the type.
pub const PARAM_PATTERN: &'static str = r"(?:(?:(@\w+\(\S+\))\s?)?(\w+): *([^\s,)]+),?)";

/// A global variable declaration with `@group` and `@binding` attributes.
#[derive(Debug)]
pub struct GlobalDeclaration {
    pub full_text: String,
    pub group: u32,
    pub binding: u32,
    pub var_name: String,
    pub var_type: String,
}

/// A struct declaration.
#[derive(Debug)]
pub struct StructDeclaration {
    pub full_text: String,
    pub _name: String,
}

/// A function with its attributes (such as `@vertex`), its parameters by
/// name, its return type without spaces, its body and its whole text.
pub struct Function {
    pub name: String,
    pub attributes: String,
    pub parameters: StrMap<Parameter>,
    pub return_type: Option<String>,
    pub body: String,
    pub full_text: String,
}

/// A function parameter: its name, its place in the parameter list, its type
/// and its attribute (such as `@builtin(vertex_index)`).
#[derive(Debug)]
pub struct Parameter {
    pub name: String,
    pub position: usize,
    pub data_type: String,
    pub location: Option<String>,
}

/// A top-level declaration.
pub enum Declaration {
    Global(GlobalDeclaration),
    Struct(StructDeclaration),
    Function(Function),
}

/// A parsed shader: its declarations in source order, its entry points, and
/// the name and binding of every texture variable.
pub struct ParsedShader {
    pub declarations: Vec<Declaration>,
    pub vertex_entry: Option<Function>,
    pub fragment_entry: Option<Function>,
    pub texture_references: StrMap<u32>,
}

pub struct GlobalModel {
    pub full_text: Seq<char>,
    pub group: u32,
    pub binding: u32,
    pub var_name: Seq<char>,
    pub var_type: Seq<char>,
}

pub struct StructModel {
    pub full_text: Seq<char>,
    pub name: Seq<char>,
}

pub struct ParameterModel {
    pub name: Seq<char>,
    pub position: usize,
    pub data_type: Seq<char>,
    pub location: Option<Seq<char>>,
}

pub struct FunctionModel {
    pub name: Seq<char>,
    pub attributes: Seq<char>,
    pub parameters: Map<Seq<char>, ParameterModel>,
    /// The parameter names in the order they were first recorded.
    pub parameter_order: Seq<Seq<char>>,
    pub return_type: Option<Seq<char>>,
    pub body: Seq<char>,
    pub full_text: Seq<char>,
}

pub enum DeclarationModel {
    Global(GlobalModel),
    Struct(StructModel),
    Function(FunctionModel),
}

pub struct ParsedModel {
    pub declarations: Seq<DeclarationModel>,
    pub vertex_entry: Option<FunctionModel>,
    pub fragment_entry: Option<FunctionModel>,
    pub texture_references: Map<Seq<char>, u32>,
}

pub open spec fn opt_text(s: Option<String>) -> Option<Seq<char>> {
    match s {
        Some(t) => Some(t@),
        None => None,
    }
}

impl View for GlobalDeclaration {
    type V = GlobalModel;

    open spec fn view(&self) -> GlobalModel {
        GlobalModel {
            full_text: self.full_text@,
            group: self.group,
            binding: self.binding,
            var_name: self.var_name@,
            var_type: self.var_type@,
        }
    }
}

impl View for StructDeclaration {
    type V = StructModel;

    open spec fn view(&self) -> StructModel {
        StructModel { full_text: self.full_text@, name: self._name@ }
    }
}

impl View for Parameter {
    type V = ParameterModel;

    open spec fn view(&self) -> ParameterModel {
        ParameterModel {
            name: self.name@,
            position: self.position,
            data_type: self.data_type@,
            location: opt_text(self.location),
        }
    }
}

impl View for Function {
    type V = FunctionModel;

    open spec fn view(&self) -> FunctionModel {
        FunctionModel {
            name: self.name@,
            attributes: self.attributes@,
            parameters: self.parameters@.map_values(|p: Parameter| p@),
            parameter_order: self.parameters.keys_seq(),
            return_type: opt_text(self.return_type),
            body: self.body@,
            full_text: self.full_text@,
        }
    }
}

impl View for Declaration {
    type V = DeclarationModel;

    open spec fn view(&self) -> DeclarationModel {
        match self {
            Declaration::Global(g) => DeclarationModel::Global(g@),
            Declaration::Struct(s) => DeclarationModel::Struct(s@),
            Declaration::Function(f) => DeclarationModel::Function(f@),
        }
    }
}

pub open spec fn opt_function(f: Option<Function>) -> Option<FunctionModel> {
    match f {
        Some(g) => Some(g@),
        None => None,
    }
}

impl View for ParsedShader {
    type V = ParsedModel;

    open spec fn view(&self) -> ParsedModel {
        ParsedModel {
            declarations: self.declarations@.map_values(|d: Declaration| d@),
            vertex_entry: opt_function(self.vertex_entry),
            fragment_entry: opt_function(self.fragment_entry),
            texture_references: self.texture_references@,
        }
    }
}

// ---------------------------------------------------------------------------
// What a parse yields, stated over the characters of the source.

/// Capture group `g` of a match, or `None` when the match has no such group.
pub open spec fn group_of(m: GroupSpans, g: int) -> Option<(usize, usize)> {
    if 0 <= g < m.len() {
        m[g]
    } else {
        None
    }
}

/// The text a group span covers; empty for a group that took no part.
pub open spec fn text_of(src: Seq<char>, sp: Option<(usize, usize)>) -> Seq<char> {
    match sp {
        Some(p) => src.subrange(p.0 as int, p.1 as int),
        None => Seq::empty(),
    }
}

/// Where a match starts.
pub open spec fn start_of(m: GroupSpans) -> usize {
    match group_of(m, 0) {
        Some(p) => p.0,
        None => 0,
    }
}

/// A decimal number as the parse reads it (zero when it does not parse).
pub open spec fn number_of(t: Seq<char>) -> u32 {
    match parse_u32_of(t) {
        Some(v) => v,
        None => 0,
    }
}

pub open spec fn struct_model(src: Seq<char>, m: GroupSpans) -> StructModel {
    StructModel { full_text: text_of(src, group_of(m, 0)), name: text_of(src, group_of(m, 1)) }
}

pub open spec fn global_model(src: Seq<char>, m: GroupSpans) -> GlobalModel {
    GlobalModel {
        full_text: text_of(src, group_of(m, 0)),
        group: number_of(text_of(src, group_of(m, 1))),
        binding: number_of(text_of(src, group_of(m, 2))),
        var_name: text_of(src, group_of(m, 3)),
        var_type: trim_of(text_of(src, group_of(m, 4))),
    }
}

/// Whether the group and binding numbers of every bound global variable in
/// `src` fit in a `u32`.
pub open spec fn bindings_fit(src: Seq<char>) -> bool {
    bindings_fit_in(src, matches_of(GLOBAL_PATTERN@, src))
}

/// Whether the group and binding numbers of every global variable match in
/// `ms` fit in a `u32`.
pub open spec fn bindings_fit_in(src: Seq<char>, ms: Seq<GroupSpans>) -> bool {
    forall|i: int| 0 <= i < ms.len() ==> {
        &&& parse_u32_of(text_of(src, group_of(#[trigger] ms[i], 1))) is Some
        &&& parse_u32_of(text_of(src, group_of(ms[i], 2))) is Some
    }
}

/// A variable type that names a 2D, 3D or cube texture.
pub open spec fn is_texture_type(t: Seq<char>) -> bool {
    contains_seq(t, "texture_2d"@) || contains_seq(t, "texture_3d"@) || contains_seq(t, "texture_cube"@)
}

/// The texture names and bindings among the first `n` global matches; a
/// later declaration of a name replaces an earlier one.
pub open spec fn texture_refs(src: Seq<char>, ms: Seq<GroupSpans>, n: int) -> Map<Seq<char>, u32>
    decreases n,
{
    if n <= 0 {
        Map::empty()
    } else {
        let prev = texture_refs(src, ms, n - 1);
        let g = global_model(src, ms[n - 1]);
        if is_texture_type(g.var_type) {
            prev.insert(g.var_name, g.binding)
        } else {
            prev
        }
    }
}

/// The texture names among the first `n` global matches, each once, in the
/// order of their first declaration.
pub open spec fn texture_order(src: Seq<char>, ms: Seq<GroupSpans>, n: int) -> Seq<Seq<char>>
    decreases n,
{
    if n <= 0 {
        Seq::empty()
    } else {
        let prev = texture_order(src, ms, n - 1);
        let g = global_model(src, ms[n - 1]);
        if is_texture_type(g.var_type) && !prev.contains(g.var_name) {
            prev.push(g.var_name)
        } else {
            prev
        }
    }
}

/// The texture names of `src`, each once, in the order of their first
/// declaration.
pub open spec fn texture_names_of(src: Seq<char>) -> Seq<Seq<char>> {
    let gs = matches_of(GLOBAL_PATTERN@, src);
    texture_order(src, gs, gs.len() as int)
}

/// The start of the line that holds position `x`.
pub open spec fn line_start(src: Seq<char>, x: int) -> int
    decreases x,
{
    if x <= 0 {
        0
    } else if src[x - 1] == '\n' {
        x
    } else {
        line_start(src, x - 1)
    }
}

pub proof fn lemma_line_start(src: Seq<char>, x: int)
    ensures
        x <= 0 ==> line_start(src, x) == 0,
        x > 0 ==> 0 <= line_start(src, x) <= x,
    decreases x,
{
    if x > 0 && src[x - 1] != '\n' {
        lemma_line_start(src, x - 1);
    }
}

/// The first position at or after `j` and before `e` that is not blank
/// (white space other than a newline).
pub open spec fn skip_blank(src: Seq<char>, j: int, e: int) -> int
    decreases e - j,
{
    if j < e && is_white_space(src[j]) && src[j] != '\n' {
        skip_blank(src, j + 1, e)
    } else {
        j
    }
}

/// Whether `c` ends a declaration or opens or closes a body.
pub open spec fn is_declaration_char(c: char) -> bool {
    c == ';' || c == '{' || c == '}'
}

/// Whether the text from `a` up to `b` holds a `;`, `{` or `}`.
pub open spec fn holds_declaration_char(src: Seq<char>, a: int, b: int) -> bool {
    exists|k: int| a <= k < b && #[trigger] is_declaration_char(src[k])
}

/// Whether the line from `a` up to its end `b` holds attributes only: its
/// first non-blank character is `@`, and nothing on it ends a declaration
/// (as the `;` of `@group(0) @binding(0) var s: sampler;` does) or opens or
/// closes a body.
pub open spec fn is_attribute_line(src: Seq<char>, a: int, b: int) -> bool {
    let j = skip_blank(src, a, b);
    j < b && src[j] == '@' && !holds_declaration_char(src, a, b)
}

/// Walking back from the line that starts at `i`, the start of the earliest
/// line of the unbroken run of attribute lines just before it; `attr` when
/// the line before `i` is not an attribute line.
pub open spec fn attribute_start(src: Seq<char>, i: int, attr: int) -> int
    decreases i,
{
    if i <= 0 {
        attr
    } else {
        let pls = line_start(src, i - 1);
        proof {
            lemma_line_start(src, i - 1);
        }
        if is_attribute_line(src, pls, i - 1) {
            attribute_start(src, pls, pls)
        } else {
            attr
        }
    }
}

/// The attributes written on the lines just above a function that starts at `p`.
pub open spec fn function_attributes(src: Seq<char>, p: int) -> Seq<char> {
    trim_of(src.subrange(attribute_start(src, line_start(src, p), p), p))
}

/// The position of the brace that closes the one opened at `open`.
pub open spec fn matching_brace(src: Seq<char>, open: int) -> Option<int> {
    matching_close(src, open, '{', '}')
}

/// The parameters named in the first `n` parameter matches of `slice`; a
/// later parameter of a name replaces an earlier one.
pub open spec fn params_upto(slice: Seq<char>, ms: Seq<GroupSpans>, n: int) -> Map<Seq<char>, ParameterModel>
    decreases n,
{
    if n <= 0 {
        Map::empty()
    } else {
        let m = ms[n - 1];
        let name = text_of(slice, group_of(m, 2));
        params_upto(slice, ms, n - 1).insert(
            name,
            ParameterModel {
                name,
                position: (n - 1) as usize,
                data_type: text_of(slice, group_of(m, 3)),
                location: match group_of(m, 1) {
                    Some(sp) => Some(text_of(slice, Some(sp))),
                    None => None,
                },
            },
        )
    }
}

/// The parameters that the parameter matches `ms` find in the text between
/// a function's name and its body.
pub open spec fn parameters_of(slice: Seq<char>, ms: Seq<GroupSpans>) -> Map<Seq<char>, ParameterModel> {
    params_upto(slice, ms, ms.len() as int)
}

/// The names of the first `n` parameter matches of `slice`, each at the place
/// where it first occurs.
pub open spec fn param_order_upto(slice: Seq<char>, ms: Seq<GroupSpans>, n: int) -> Seq<Seq<char>>
    decreases n,
{
    if n <= 0 {
        Seq::empty()
    } else {
        let prev = param_order_upto(slice, ms, n - 1);
        let name = text_of(slice, group_of(ms[n - 1], 2));
        if prev.contains(name) {
            prev
        } else {
            prev.push(name)
        }
    }
}

/// The parameter names that the parameter matches `ms` find in the text
/// between a function's name and its body, in order.
pub open spec fn parameter_order_of(slice: Seq<char>, ms: Seq<GroupSpans>) -> Seq<Seq<char>> {
    param_order_upto(slice, ms, ms.len() as int)
}

/// The return type of a function that starts at `start` and whose body opens
/// at `open`: the text between the `->` that follows its parameter list (from
/// its first `(` to the matching `)`) and the body, without spaces; none when
/// no `->` comes there.
pub open spec fn return_type_of(src: Seq<char>, start: int, open: int) -> Option<Seq<char>> {
    match find_char_from(src, '(', start) {
        Some(po) => match matching_close(src, po, '(', ')') {
            Some(pc) => match find_arrow(src, pc + 1, open) {
                Some(a) => Some(without_spaces(src.subrange(a + 2, open))),
                None => None,
            },
            None => None,
        },
        None => None,
    }
}

/// The text from the start of the function head `m` up to the `{` of its
/// body, where the parameters are looked for; empty without a body.
pub open spec fn head_of(src: Seq<char>, m: GroupSpans) -> Seq<char> {
    match find_char_from(src, '{', start_of(m) as int) {
        Some(open) => src.subrange(start_of(m) as int, open),
        None => Seq::empty(),
    }
}

/// The parameter matches of each function head of `fms`.
pub open spec fn param_matches(src: Seq<char>, fms: Seq<GroupSpans>) -> Seq<Seq<GroupSpans>> {
    fms.map_values(|m: GroupSpans| matches_of(PARAM_PATTERN@, head_of(src, m)))
}

/// The function whose head is the match `m`, with the parameter matches `pms`
/// of its head, when its body opens and closes.
pub open spec fn function_model(src: Seq<char>, m: GroupSpans, pms: Seq<GroupSpans>) -> Option<FunctionModel> {
    let start = start_of(m) as int;
    match find_char_from(src, '{', start) {
        None => None,
        Some(open) => match matching_brace(src, open) {
            None => None,
            Some(end) => Some(
                FunctionModel {
                    name: text_of(src, group_of(m, 1)),
                    attributes: function_attributes(src, start),
                    parameters: parameters_of(src.subrange(start, open), pms),
                    parameter_order: parameter_order_of(src.subrange(start, open), pms),
                    return_type: return_type_of(src, start, open),
                    body: src.subrange(open + 1, end),
                    full_text: src.subrange(start, end + 1),
                },
            ),
        },
    }
}

/// The functions among the first `n` function heads, with the position
/// where each function's text first occurs.
pub open spec fn functions_upto(
    src: Seq<char>,
    ms: Seq<GroupSpans>,
    pmss: Seq<Seq<GroupSpans>>,
    n: int,
) -> Seq<(usize, FunctionModel)>
    decreases n,
{
    if n <= 0 {
        Seq::empty()
    } else {
        let prev = functions_upto(src, ms, pmss, n - 1);
        match function_model(src, ms[n - 1], pmss[n - 1]) {
            Some(f) => match find_seq(src, f.full_text) {
                Some(pos) => prev.push((pos as usize, f)),
                None => prev,
            },
            None => prev,
        }
    }
}

/// The functions of the heads `fms`, with the parameter matches `pmss` of
/// each head, and their positions.
pub open spec fn functions_in(src: Seq<char>, fms: Seq<GroupSpans>, pmss: Seq<Seq<GroupSpans>>) -> Seq<(usize, FunctionModel)> {
    functions_upto(src, fms, pmss, fms.len() as int)
}

/// All functions of `src` with their positions.
pub open spec fn functions_of(src: Seq<char>) -> Seq<(usize, FunctionModel)> {
    let ms = matches_of(FN_PATTERN@, src);
    functions_in(src, ms, param_matches(src, ms))
}

/// The last function of `fs` that is called `name`.
pub open spec fn last_named(fs: Seq<(usize, FunctionModel)>, name: Seq<char>) -> Option<FunctionModel>
    decreases fs.len(),
{
    if fs.len() == 0 {
        None
    } else if fs.last().1.name == name {
        Some(fs.last().1)
    } else {
        last_named(fs.drop_last(), name)
    }
}

/// `s` with `x` inserted after every item whose position is not greater than `x`'s.
pub open spec fn insert_by_position(s: Seq<(usize, DeclarationModel)>, x: (usize, DeclarationModel)) -> Seq<(usize, DeclarationModel)>
    decreases s.len(),
{
    if s.len() == 0 {
        seq![x]
    } else if s.last().0 <= x.0 {
        s.push(x)
    } else {
        insert_by_position(s.drop_last(), x).push(s.last())
    }
}

/// `s` sorted by position, items of equal position keeping their order.
pub open spec fn sort_by_position(s: Seq<(usize, DeclarationModel)>) -> Seq<(usize, DeclarationModel)>
    decreases s.len(),
{
    if s.len() == 0 {
        s
    } else {
        insert_by_position(sort_by_position(s.drop_last()), s.last())
    }
}

/// The structs that the matches `sms` find, with their positions.
pub open spec fn struct_items_in(src: Seq<char>, sms: Seq<GroupSpans>) -> Seq<(usize, DeclarationModel)> {
    sms.map_values(|m: GroupSpans| (start_of(m), DeclarationModel::Struct(struct_model(src, m))))
}

/// The bound globals that the matches `gms` find, with their positions.
pub open spec fn global_items_in(src: Seq<char>, gms: Seq<GroupSpans>) -> Seq<(usize, DeclarationModel)> {
    gms.map_values(|m: GroupSpans| (start_of(m), DeclarationModel::Global(global_model(src, m))))
}

/// The functions of `fs` as declarations, with their positions.
pub open spec fn function_items_of(fs: Seq<(usize, FunctionModel)>) -> Seq<(usize, DeclarationModel)> {
    fs.map_values(|p: (usize, FunctionModel)| (p.0, DeclarationModel::Function(p.1)))
}

/// What parsing `src` yields, given the matches of the struct, global and
/// function head patterns in `src` and of the parameter pattern in each
/// function head.
pub open spec fn parse_model_in(
    src: Seq<char>,
    sms: Seq<GroupSpans>,
    gms: Seq<GroupSpans>,
    fms: Seq<GroupSpans>,
    pmss: Seq<Seq<GroupSpans>>,
) -> ParsedModel {
    let fs = functions_in(src, fms, pmss);
    ParsedModel {
        declarations: sort_by_position(
            struct_items_in(src, sms) + global_items_in(src, gms) + function_items_of(fs),
        ).map_values(|p: (usize, DeclarationModel)| p.1),
        vertex_entry: last_named(fs, "vs_main"@),
        fragment_entry: last_named(fs, "fs_main"@),
        texture_references: texture_refs(src, gms, gms.len() as int),
    }
}

/// What parsing `src` yields.
pub open spec fn parse_model(src: Seq<char>) -> ParsedModel {
    let fms = matches_of(FN_PATTERN@, src);
    parse_model_in(
        src,
        matches_of(STRUCT_PATTERN@, src),
        matches_of(GLOBAL_PATTERN@, src),
        fms,
        param_matches(src, fms),
    )
}

/// Whether the matches handed to the parse lie within their texts: those of
/// `sms`, `gms` and `fms` within `src`, and each of `pmss` within the head
/// of its function.
pub open spec fn parse_matches_in_bounds(
    src: Seq<char>,
    sms: Seq<GroupSpans>,
    gms: Seq<GroupSpans>,
    fms: Seq<GroupSpans>,
    pmss: Seq<Seq<GroupSpans>>,
) -> bool {
    &&& spans_in_bounds(sms, src.len())
    &&& spans_in_bounds(gms, src.len())
    &&& spans_in_bounds(fms, src.len())
    &&& pmss.len() == fms.len()
    &&& forall|i: int| 0 <= i < fms.len() ==> spans_in_bounds(#[trigger] pmss[i], head_of(src, fms[i]).len())
}

// ---------------------------------------------------------------------------
// The parse.

/// Capture group `g` of the match `m`.
fn group_span(m: &Vec<Option<(usize, usize)>>, g: usize) -> (r: Option<(usize, usize)>)
    ensures
        r == group_of(m.deep_view(), g as int),
{
    if g < m.len() {
        let r = m[g];
        assert(m.deep_view()[g as int] == r);
        r
    } else {
        None
    }
}

/// The text that group `g` of `m` covers in `src`.
fn group_text(src: &Vec<char>, m: &Vec<Option<(usize, usize)>>, g: usize) -> (s: String)
    requires
        forall|k: int| 0 <= k < m.deep_view().len() ==> (#[trigger] m.deep_view()[k] matches Some(sp) ==> sp.0 <= sp.1 <= src@.len()),
    ensures
        s@ == text_of(src@, group_of(m.deep_view(), g as int)),
{
    match group_span(m, g) {
        Some(sp) => string_of(src, sp.0, sp.1),
        None => String::new(),
    }
}

/// Spans of a match that lie within a text of `len` characters.
pub open spec fn match_in_bounds(m: GroupSpans, len: nat) -> bool {
    forall|k: int| 0 <= k < m.len() ==> (#[trigger] m[k] matches Some(sp) ==> sp.0 <= sp.1 <= len)
}

proof fn lemma_match_in_bounds(ms: Seq<GroupSpans>, len: nat, i: int)
    requires
        spans_in_bounds(ms, len),
        0 <= i < ms.len(),
    ensures
        match_in_bounds(ms[i], len),
        ms[i].len() >= 1,
        ms[i][0] is Some,
{
    assert forall|k: int| 0 <= k < ms[i].len() implies (#[trigger] ms[i][k] matches Some(sp) ==> sp.0 <= sp.1 <= len) by {
    }
}

impl Parameter {
    /// A copy of this parameter.
    pub fn duplicate(&self) -> (p: Parameter)
        ensures
            p@ == self@,
    {
        Parameter {
            name: self.name.clone(),
            position: self.position,
            data_type: self.data_type.clone(),
            location: match &self.location {
                Some(l) => Some(l.clone()),
                None => None,
            },
        }
    }
}

/// A copy of a parameter map.
pub fn duplicate_parameters(m: &StrMap<Parameter>) -> (r: StrMap<Parameter>)
    ensures
        r@.map_values(|p: Parameter| p@) == m@.map_values(|p: Parameter| p@),
        r.keys_seq() == m.keys_seq(),
{
    let keys = m.keys();
    let values = m.values();
    let mut r: StrMap<Parameter> = StrMap::new();
    let mut i: usize = 0;
    while i < keys.len()
        invariant
            keys@.len() == m.keys_seq().len(),
            values@.len() == m.keys_seq().len(),
            m.keys_seq().no_duplicates(),
            forall|j: int| 0 <= j < keys@.len() ==> (#[trigger] keys@[j])@ == m.keys_seq()[j],
            forall|j: int| 0 <= j < values@.len() ==> *(#[trigger] values@[j]) == m@[m.keys_seq()[j]],
            forall|k: Seq<char>| m@.contains_key(k) <==> m.keys_seq().contains(k),
            i <= keys@.len(),
            r@.dom() == m.keys_seq().take(i as int).to_set(),
            r.keys_seq() == m.keys_seq().take(i as int),
            forall|k: Seq<char>| #[trigger] r@.contains_key(k) ==> r@[k]@ == m@[k]@,
        decreases keys@.len() - i,
    {
        let k = keys[i].clone();
        let v = values[i].duplicate();
        let ghost kk = m.keys_seq()[i as int];
        proof {
            if r@.contains_key(kk) {
                let t0 = m.keys_seq().take(i as int);
                assert(t0.to_set().contains(kk));
                let j = choose|j: int| 0 <= j < t0.len() && t0[j] == kk;
                assert(m.keys_seq()[j] == m.keys_seq()[i as int]);
            }
        }
        r.insert(k, v);
        proof {
            let t0 = m.keys_seq().take(i as int);
            let t1 = m.keys_seq().take(i + 1);
            assert(t1 =~= t0.push(kk));
            assert forall|x: Seq<char>| r@.dom().contains(x) <==> t1.to_set().contains(x) by {
                if x == kk {
                    assert(t1[i as int] == kk);
                } else {
                    if t1.contains(x) {
                        let j = choose|j: int| 0 <= j < t1.len() && t1[j] == x;
                        assert(t0[j] == x);
                    }
                    if t0.contains(x) {
                        let j = choose|j: int| 0 <= j < t0.len() && t0[j] == x;
                        assert(t1[j] == x);
                    }
                }
            }
            assert(r@.dom() =~= t1.to_set());
            assert(m.keys_seq().contains(kk));
            assert(m.keys_seq()[i as int] == kk);
        }
        i = i + 1;
    }
    proof {
        assert(m.keys_seq().take(keys@.len() as int) =~= m.keys_seq());
        assert(r@.dom() =~= m@.dom());
        assert(r@.map_values(|p: Parameter| p@) =~= m@.map_values(|p: Parameter| p@));
    }
    r
}

impl Function {
    /// A copy of this function.
    pub fn duplicate(&self) -> (f: Function)
        ensures
            f@ == self@,
    {
        Function {
            name: self.name.clone(),
            attributes: self.attributes.clone(),
            parameters: duplicate_parameters(&self.parameters),
            return_type: match &self.return_type {
                Some(t) => Some(t.clone()),
                None => None,
            },
            body: self.body.clone(),
            full_text: self.full_text.clone(),
        }
    }
}

impl ParsedShader {
    /// The attributes (such as `@vertex`) on the lines just above the function
    /// that starts at `function_start_pos`, trimmed.
    fn find_function_attributes(source: &Vec<char>, function_start_pos: usize) -> (s: String)
        requires
            function_start_pos <= source@.len(),
        ensures
            s@ == function_attributes(source@, function_start_pos as int),
    {
        let ghost src = source@;
        let p = function_start_pos;
        let mut ls = p;
        while ls > 0 && source[ls - 1] != '\n'
            invariant
                ls <= p <= src.len(),
                src == source@,
                line_start(src, p as int) == line_start(src, ls as int),
            decreases ls,
        {
            ls = ls - 1;
        }
        let ghost ls0 = ls;
        let mut attr_start = p;
        let mut i = ls;
        let mut done = false;
        while i > 0 && !done
            invariant
                i <= p <= src.len(),
                attr_start <= p,
                src == source@,
                attribute_start(src, ls0 as int, p as int) == (if done {
                    attr_start as int
                } else {
                    attribute_start(src, i as int, attr_start as int)
                }),
            decreases i,
        {
            let ghost i0 = i;
            i = i - 1;
            let line_end = i;
            while i > 0 && source[i - 1] != '\n'
                invariant
                    i <= line_end < src.len(),
                    src == source@,
                    line_start(src, line_end as int) == line_start(src, i as int),
                decreases i,
            {
                i = i - 1;
            }
            assert(line_start(src, i as int) == i);
            let prev_line_start = i;
            let mut j = prev_line_start;
            while j < line_end && is_whitespace(source[j]) && source[j] != '\n'
                invariant
                    prev_line_start <= j <= line_end < src.len(),
                    src == source@,
                    skip_blank(src, prev_line_start as int, line_end as int) == skip_blank(src, j as int, line_end as int),
                decreases line_end - j,
            {
                j = j + 1;
            }
            if j < line_end && source[j] == '@' && !Self::holds_declaration_char_exec(
                source,
                prev_line_start,
                line_end,
            ) {
                attr_start = prev_line_start;
            } else {
                done = true;
            }
        }
        proof {
            if !done {
                assert(i == 0);
            }
        }
        let ghost a = attribute_start(src, ls0 as int, p as int);
        trimmed(source, attr_start, p)
    }

    /// Whether the text from `a` up to `b` holds a `;`, `{` or `}`.
    fn holds_declaration_char_exec(source: &Vec<char>, a: usize, b: usize) -> (r: bool)
        requires
            a <= b <= source@.len(),
        ensures
            r == holds_declaration_char(source@, a as int, b as int),
    {
        let mut k = a;
        while k < b
            invariant
                a <= k <= b <= source@.len(),
                forall|x: int| a <= x < k ==> !is_declaration_char(#[trigger] source@[x]),
            decreases b - k,
        {
            let c = source[k];
            if c == ';' || c == '{' || c == '}' {
                assert(is_declaration_char(source@[k as int]));
                return true;
            }
            k = k + 1;
        }
        false
    }

    /// The position of the `}` that closes the `{` at `open_pos`.
    fn find_matching_brace(source: &Vec<char>, open_pos: usize) -> (r: Option<usize>)
        ensures
            r matches Some(e) ==> matching_brace(source@, open_pos as int) == Some(e as int),
            r is None ==> matching_brace(source@, open_pos as int) is None,
    {
        find_matching_close(source, open_pos, '{', '}')
    }

    /// The parameters found in `slice`, the text between a function's name and its body.
    fn parse_parameters(slice: &str, ms: &Vec<Vec<Option<(usize, usize)>>>) -> (r: StrMap<Parameter>)
        requires
            spans_in_bounds(ms.deep_view(), slice@.len()),
        ensures
            r@.map_values(|p: Parameter| p@) == parameters_of(slice@, ms.deep_view()),
            r.keys_seq() == parameter_order_of(slice@, ms.deep_view()),
    {
        let chars = chars_of(slice);
        let ghost msv = ms.deep_view();
        let mut r: StrMap<Parameter> = StrMap::new();
        let mut i: usize = 0;
        assert(r@.map_values(|p: Parameter| p@) =~= params_upto(slice@, msv, 0));
        assert(r.keys_seq() =~= param_order_upto(slice@, msv, 0));
        while i < ms.len()
            invariant
                chars@ == slice@,
                msv == ms.deep_view(),
                spans_in_bounds(msv, slice@.len()),
                i <= ms@.len(),
                r@.map_values(|p: Parameter| p@) == params_upto(slice@, msv, i as int),
                r.keys_seq() == param_order_upto(slice@, msv, i as int),
                forall|k: Seq<char>| r@.contains_key(k) <==> r.keys_seq().contains(k),
            decreases ms@.len() - i,
        {
            proof {
                lemma_match_in_bounds(msv, slice@.len(), i as int);
            }
            let m = &ms[i];
            assert(m.deep_view() == msv[i as int]);
            let name = group_text(&chars, m, 2);
            let location = match group_span(m, 1) {
                Some(sp) => Some(string_of(&chars, sp.0, sp.1)),
                None => None,
            };
            let param = Parameter { name: name.clone(), position: i, data_type: group_text(&chars, m, 3), location };
            let ghost before = r@;
            let ghost keys_before = r.keys_seq();
            r.insert(name, param);
            proof {
                assert forall|k: Seq<char>| r@.contains_key(k) <==> r.keys_seq().contains(k) by {
                    if !before.contains_key(param.name@) {
                        assert(r.keys_seq() == keys_before.push(param.name@));
                        if k == param.name@ {
                            assert(r.keys_seq()[keys_before.len() as int] == k);
                        } else {
                            if r.keys_seq().contains(k) {
                                let j = choose|j: int| 0 <= j < r.keys_seq().len() && r.keys_seq()[j] == k;
                                assert(keys_before[j] == k);
                            }
                            if keys_before.contains(k) {
                                let j = choose|j: int| 0 <= j < keys_before.len() && keys_before[j] == k;
                                assert(r.keys_seq()[j] == k);
                            }
                        }
                    }
                }
                assert(r@.map_values(|p: Parameter| p@) =~= before.map_values(|p: Parameter| p@).insert(
                    param.name@,
                    param@,
                ));
            }
            i = i + 1;
        }
        r
    }

    /// The return type of the function that starts at `start` and whose body
    /// opens at `open`: the text between the `->` after its parameter list and
    /// the body, without spaces.
    fn find_return_type(source: &Vec<char>, start: usize, open: usize) -> (r: Option<String>)
        requires
            open <= source@.len(),
        ensures
            opt_text(r) == return_type_of(source@, start as int, open as int),
    {
        let po = match find_char_exec(source, '(', start) {
            Some(po) => po,
            None => return None,
        };
        let pc = match find_matching_close(source, po, '(', ')') {
            Some(pc) => pc,
            None => return None,
        };
        proof {
            lemma_matching_close(source@, po as int, '(', ')');
            assert(matching_close(source@, po as int, '(', ')') == Some(pc as int));
        }
        let n = source.len();
        assert(pc < n);
        match find_arrow_exec(source, pc + 1, open) {
            Some(a) => {
                proof {
                    lemma_find_arrow(source@, pc + 1, open as int);
                }
                Some(string_without_spaces(source, a + 2, open))
            },
            None => None,
        }
    }

    /// The function whose head is the match `m` in `source`, when its body
    /// opens and closes.
    fn extract_function(
        source: &Vec<char>,
        m: &Vec<Option<(usize, usize)>>,
        pms: &Vec<Vec<Option<(usize, usize)>>>,
    ) -> (r: Option<Function>)
        requires
            match_in_bounds(m.deep_view(), source@.len()),
            m.deep_view().len() >= 1,
            m.deep_view()[0] is Some,
            spans_in_bounds(pms.deep_view(), head_of(source@, m.deep_view()).len()),
        ensures
            opt_function(r) == function_model(source@, m.deep_view(), pms.deep_view()),
    {
        let start = match group_span(m, 0) {
            Some(sp) => sp.0,
            None => 0,
        };
        let name = group_text(source, m, 1);
        let attributes = Self::find_function_attributes(source, start);
        let open = match find_char_exec(source, '{', start) {
            Some(o) => o,
            None => return None,
        };
        proof {
            lemma_find_char_from(source@, '{', start as int);
        }
        let parameter_slice = string_of(source, start, open);
        assert(parameter_slice@ == head_of(source@, m.deep_view()));
        let parameters = Self::parse_parameters(parameter_slice.as_str(), pms);
        let return_type = Self::find_return_type(source, start, open);
        match Self::find_matching_brace(source, open) {
            Some(end) => {
                proof {
                    lemma_matching_brace(source@, open as int);
                }
                assert(end < source.len());
                let f = Function {
                    name,
                    attributes,
                    parameters,
                    return_type,
                    body: string_of(source, open + 1, end),
                    full_text: string_of(source, start, end + 1),
                };
                Some(f)
            },
            None => None,
        }
    }

    /// Parses `source` into its declarations, in source order, with its entry
    /// points and texture bindings.
    pub fn parse(source: &str) -> (p: ParsedShader)
        requires
            bindings_fit(source@),
        ensures
            p@ == parse_model(source@),
            p.texture_references.keys_seq() == texture_names_of(source@),
    {
        let src = chars_of(source);
        let structs = find_matches(STRUCT_PATTERN, source);
        let globals = find_matches(GLOBAL_PATTERN, source);
        let heads = find_matches(FN_PATTERN, source);
        let params = Self::head_parameter_matches(&src, source, &heads);
        Self::parse_matched(source, &structs, &globals, &heads, &params)
    }

    /// The matches of the parameter pattern in the head of each function of
    /// `heads` (see `head_of`).
    fn head_parameter_matches(
        src: &Vec<char>,
        source: &str,
        heads: &Vec<Vec<Option<(usize, usize)>>>,
    ) -> (r: Vec<Vec<Vec<Option<(usize, usize)>>>>)
        requires
            src@ == source@,
            spans_in_bounds(heads.deep_view(), source@.len()),
        ensures
            r.deep_view() == param_matches(source@, heads.deep_view()),
            forall|i: int|
                0 <= i < heads.deep_view().len() ==> spans_in_bounds(
                    #[trigger] r.deep_view()[i],
                    head_of(source@, heads.deep_view()[i]).len(),
                ),
    {
        let ghost fms = heads.deep_view();
        let mut r: Vec<Vec<Vec<Option<(usize, usize)>>>> = Vec::new();
        let mut i: usize = 0;
        while i < heads.len()
            invariant
                src@ == source@,
                fms == heads.deep_view(),
                spans_in_bounds(fms, source@.len()),
                i <= heads@.len(),
                r@.len() == i,
                forall|j: int| 0 <= j < i ==> (#[trigger] r@[j]).deep_view() == matches_of(PARAM_PATTERN@, head_of(source@, fms[j])),
                forall|j: int| 0 <= j < i ==> spans_in_bounds((#[trigger] r@[j]).deep_view(), head_of(source@, fms[j]).len()),
            decreases heads@.len() - i,
        {
            proof {
                lemma_match_in_bounds(fms, source@.len(), i as int);
            }
            let m = &heads[i];
            assert(m.deep_view() == fms[i as int]);
            let start = match group_span(m, 0) {
                Some(sp) => sp.0,
                None => 0,
            };
            let head = match find_char_exec(src, '{', start) {
                Some(open) => {
                    proof {
                        lemma_find_char_from(source@, '{', start as int);
                    }
                    string_of(src, start, open)
                },
                None => String::new(),
            };
            assert(head@ == head_of(source@, fms[i as int]));
            let ms = find_matches(PARAM_PATTERN, head.as_str());
            r.push(ms);
            i = i + 1;
        }
        proof {
            assert forall|j: int| 0 <= j < fms.len() implies #[trigger] r.deep_view()[j] == param_matches(source@, fms)[j] by {
                assert(r.deep_view()[j] == r@[j].deep_view());
            }
            assert(r.deep_view() =~= param_matches(source@, fms));
        }
        r
    }

    /// Parses `source` from the matches of the struct, global and function
    /// head patterns in it and of the parameter pattern in each function head
    /// (see `parse_model_in`).
    pub fn parse_matched(
        source: &str,
        structs: &Vec<Vec<Option<(usize, usize)>>>,
        globals: &Vec<Vec<Option<(usize, usize)>>>,
        heads: &Vec<Vec<Option<(usize, usize)>>>,
        params: &Vec<Vec<Vec<Option<(usize, usize)>>>>,
    ) -> (p: ParsedShader)
        requires
            parse_matches_in_bounds(
                source@,
                structs.deep_view(),
                globals.deep_view(),
                heads.deep_view(),
                params.deep_view(),
            ),
            bindings_fit_in(source@, globals.deep_view()),
        ensures
            p@ == parse_model_in(
                source@,
                structs.deep_view(),
                globals.deep_view(),
                heads.deep_view(),
                params.deep_view(),
            ),
            p.texture_references.keys_seq() == texture_order(
                source@,
                globals.deep_view(),
                globals.deep_view().len() as int,
            ),
    {
        let src = chars_of(source);
        let mut items: Vec<(usize, Declaration)> = Vec::new();
        assert(items_view(items@) =~= sort_by_position(Seq::empty()));
        Self::collect_structs(&src, source, structs, &mut items);
        let texture_references = Self::collect_globals(
            &src,
            source,
            globals,
            &mut items,
            Ghost(struct_items_in(source@, structs.deep_view())),
        );
        let (vertex_entry, fragment_entry) = Self::collect_functions(
            &src,
            source,
            heads,
            params,
            &mut items,
            Ghost(struct_items_in(source@, structs.deep_view()) + global_items_in(source@, globals.deep_view())),
        );
        let declarations = Self::drop_positions(items);
        ParsedShader { declarations, vertex_entry, fragment_entry, texture_references }
    }

    fn collect_structs(
        src: &Vec<char>,
        source: &str,
        structs: &Vec<Vec<Option<(usize, usize)>>>,
        items: &mut Vec<(usize, Declaration)>,
    )
        requires
            src@ == source@,
            spans_in_bounds(structs.deep_view(), source@.len()),
            items_view(old(items)@) == sort_by_position(Seq::empty()),
        ensures
            items_view(final(items)@) == sort_by_position(struct_items_in(source@, structs.deep_view())),
    {
        let ghost sv = source@;
        let ghost sms = structs.deep_view();
        let mut i: usize = 0;
        while i < structs.len()
            invariant
                src@ == sv,
                sms == structs.deep_view(),
                spans_in_bounds(sms, sv.len()),
                i <= structs@.len(),
                items_view(items@) == sort_by_position(struct_items_in(sv, sms).take(i as int)),
            decreases structs@.len() - i,
        {
            proof {
                lemma_match_in_bounds(sms, sv.len(), i as int);
            }
            let m = &structs[i];
            assert(m.deep_view() == sms[i as int]);
            let position = match group_span(m, 0) {
                Some(sp) => sp.0,
                None => 0,
            };
            let decl = Declaration::Struct(
                StructDeclaration { full_text: group_text(src, m, 0), _name: group_text(src, m, 1) },
            );
            let ghost before = struct_items_in(sv, sms).take(i as int);
            insert_item(items, (position, decl));
            proof {
                assert(struct_items_in(sv, sms).take(i + 1) =~= before.push(struct_items_in(sv, sms)[i as int]));
                assert(before.push(struct_items_in(sv, sms)[i as int]).drop_last() =~= before);
            }
            i = i + 1;
        }
        assert(struct_items_in(sv, sms).take(structs@.len() as int) =~= struct_items_in(sv, sms));

    }

    fn collect_globals(
        src: &Vec<char>,
        source: &str,
        globals: &Vec<Vec<Option<(usize, usize)>>>,
        items: &mut Vec<(usize, Declaration)>,
        Ghost(base): Ghost<Seq<(usize, DeclarationModel)>>,
    ) -> (texture_references: StrMap<u32>)
        requires
            src@ == source@,
            spans_in_bounds(globals.deep_view(), source@.len()),
            bindings_fit_in(source@, globals.deep_view()),
            items_view(old(items)@) == sort_by_position(base),
        ensures
            items_view(final(items)@) == sort_by_position(base + global_items_in(source@, globals.deep_view())),
            texture_references@ == texture_refs(source@, globals.deep_view(), globals.deep_view().len() as int),
            texture_references.keys_seq() == texture_order(
                source@,
                globals.deep_view(),
                globals.deep_view().len() as int,
            ),
    {
        let ghost sv = source@;
        let ghost gms = globals.deep_view();
        assert(base + global_items_in(sv, gms).take(0) =~= base);
        let mut texture_references: StrMap<u32> = StrMap::new();
        assert(texture_references@ =~= texture_refs(sv, gms, 0));
        assert(texture_references.keys_seq() =~= texture_order(sv, gms, 0));
        let tex_2d = chars_of("texture_2d");
        let tex_3d = chars_of("texture_3d");
        let tex_cube = chars_of("texture_cube");
        let mut i: usize = 0;
        while i < globals.len()
            invariant
                src@ == sv,
                gms == globals.deep_view(),
                spans_in_bounds(gms, sv.len()),
                bindings_fit_in(sv, gms),
                tex_2d@ == "texture_2d"@,
                tex_3d@ == "texture_3d"@,
                tex_cube@ == "texture_cube"@,
                i <= globals@.len(),
                items_view(items@) == sort_by_position(base + global_items_in(sv, gms).take(i as int)),
                texture_references@ == texture_refs(sv, gms, i as int),
                texture_references.keys_seq() == texture_order(sv, gms, i as int),
            decreases globals@.len() - i,
        {
            proof {
                lemma_match_in_bounds(gms, sv.len(), i as int);
            }
            let m = &globals[i];
            assert(m.deep_view() == gms[i as int]);
            let position = match group_span(m, 0) {
                Some(sp) => sp.0,
                None => 0,
            };
            let group = Self::group_number(src, m, 1);
            let binding = Self::group_number(src, m, 2);
            let var_name = group_text(src, m, 3);
            let var_type = match group_span(m, 4) {
                Some(sp) => trimmed(src, sp.0, sp.1),
                None => {
                    assert(trim_of(Seq::<char>::empty()) =~= Seq::<char>::empty());
                    String::new()
                },
            };
            let vt = chars_of(var_type.as_str());
            if contains_exec(&vt, &tex_2d) || contains_exec(&vt, &tex_3d) || contains_exec(&vt, &tex_cube) {
                texture_references.insert(var_name.clone(), binding);
            }
            assert(texture_references.keys_seq() == texture_order(sv, gms, i + 1));
            let decl = Declaration::Global(
                GlobalDeclaration { full_text: group_text(src, m, 0), group, binding, var_name, var_type },
            );
            let ghost before = base + global_items_in(sv, gms).take(i as int);
            insert_item(items, (position, decl));
            proof {
                assert(base + global_items_in(sv, gms).take(i + 1) =~= before.push(global_items_in(sv, gms)[i as int]));
                assert(before.push(global_items_in(sv, gms)[i as int]).drop_last() =~= before);
            }
            i = i + 1;
        }
        assert(global_items_in(sv, gms).take(globals@.len() as int) =~= global_items_in(sv, gms));

        texture_references
    }

    fn collect_functions(
        src: &Vec<char>,
        source: &str,
        heads: &Vec<Vec<Option<(usize, usize)>>>,
        params: &Vec<Vec<Vec<Option<(usize, usize)>>>>,
        items: &mut Vec<(usize, Declaration)>,
        Ghost(base): Ghost<Seq<(usize, DeclarationModel)>>,
    ) -> (r: (Option<Function>, Option<Function>))
        requires
            src@ == source@,
            spans_in_bounds(heads.deep_view(), source@.len()),
            params.deep_view().len() == heads.deep_view().len(),
            forall|i: int|
                0 <= i < heads.deep_view().len() ==> spans_in_bounds(
                    #[trigger] params.deep_view()[i],
                    head_of(source@, heads.deep_view()[i]).len(),
                ),
            items_view(old(items)@) == sort_by_position(base),
        ensures
            items_view(final(items)@) == sort_by_position(
                base + function_items_of(functions_in(source@, heads.deep_view(), params.deep_view())),
            ),
            opt_function(r.0) == last_named(functions_in(source@, heads.deep_view(), params.deep_view()), "vs_main"@),
            opt_function(r.1) == last_named(functions_in(source@, heads.deep_view(), params.deep_view()), "fs_main"@),
    {
        let ghost sv = source@;
        let ghost fms = heads.deep_view();
        let ghost pmss = params.deep_view();
        let mut vertex_entry: Option<Function> = None;
        let mut fragment_entry: Option<Function> = None;
        assert(base + Seq::<(usize, DeclarationModel)>::empty() =~= base);
        let mut i: usize = 0;
        while i < heads.len()
            invariant
                src@ == sv,
                fms == heads.deep_view(),
                pmss == params.deep_view(),
                spans_in_bounds(fms, sv.len()),
                pmss.len() == fms.len(),
                forall|j: int| 0 <= j < fms.len() ==> spans_in_bounds(#[trigger] pmss[j], head_of(sv, fms[j]).len()),
                i <= heads@.len(),
                items_view(items@) == sort_by_position(base + function_items_of(functions_upto(sv, fms, pmss, i as int))),
                opt_function(vertex_entry) == last_named(functions_upto(sv, fms, pmss, i as int), "vs_main"@),
                opt_function(fragment_entry) == last_named(functions_upto(sv, fms, pmss, i as int), "fs_main"@),
            decreases heads@.len() - i,
        {
            proof {
                lemma_match_in_bounds(fms, sv.len(), i as int);
            }
            let m = &heads[i];
            assert(m.deep_view() == fms[i as int]);
            let ghost prev = functions_upto(sv, fms, pmss, i as int);
            let pms = &params[i];
            assert(pms.deep_view() == pmss[i as int]);
            match Self::extract_function(src, m, pms) {
                Some(func) => {
                    let text = chars_of(func.full_text.as_str());
                    match find_from_exec(src, &text, 0) {
                        Some(pos) => {
                            let ghost fm = func@;
                            if text_eq(func.name.as_str(), "vs_main") {
                                vertex_entry = Some(func.duplicate());
                            } else if text_eq(func.name.as_str(), "fs_main") {
                                fragment_entry = Some(func.duplicate());
                            }
                            insert_item(items, (pos, Declaration::Function(func)));
                            proof {
                                reveal_strlit("vs_main");
                                reveal_strlit("fs_main");
                                assert("vs_main"@[0] != "fs_main"@[0]);
                                let cur = prev.push((pos, fm));
                                assert(functions_upto(sv, fms, pmss, i + 1) == cur);
                                assert(cur.drop_last() =~= prev);
                                let before = base + function_items_of(prev);
                                assert(base + function_items_of(cur) =~= before.push((pos, DeclarationModel::Function(fm))));
                                assert(before.push((pos, DeclarationModel::Function(fm))).drop_last() =~= before);
                            }
                        },
                        None => {
                            assert(functions_upto(sv, fms, pmss, i + 1) == prev);
                        },
                    }
                },
                None => {
                    assert(functions_upto(sv, fms, pmss, i + 1) == prev);
                },
            }
            i = i + 1;
        }

        (vertex_entry, fragment_entry)
    }

    fn drop_positions(items: Vec<(usize, Declaration)>) -> (declarations: Vec<Declaration>)
        ensures
            declarations@.map_values(|d: Declaration| d@) == items_view(items@).map_values(|p: (usize, DeclarationModel)| p.1),
    {
        let mut items = items;
        // Drop the positions, keeping the order.
        let ghost sorted = items_view(items@);
        let mut reversed: Vec<(usize, Declaration)> = Vec::new();
        while items.len() > 0
            invariant
                items_view(items@) + items_view(reversed@).reverse() == sorted,
            decreases items@.len(),
        {
            let ghost a = items@;
            let ghost b = reversed@;
            let it = items.pop().unwrap();
            reversed.push(it);
            proof {
                assert(a =~= items@.push(it));
                assert(items_view(reversed@).reverse() =~= seq![(it.0, it.1@)] + items_view(b).reverse());
                assert(items_view(a) =~= items_view(items@).push((it.0, it.1@)));
                assert(items_view(items@) + items_view(reversed@).reverse() =~= items_view(a) + items_view(b).reverse());
            }
        }
        assert(items_view(reversed@).reverse() =~= sorted);
        let mut declarations: Vec<Declaration> = Vec::new();
        while reversed.len() > 0
            invariant
                declarations@.map_values(|d: Declaration| d@) + items_view(reversed@).reverse().map_values(
                    |p: (usize, DeclarationModel)| p.1,
                ) == sorted.map_values(|p: (usize, DeclarationModel)| p.1),
            decreases reversed@.len(),
        {
            let ghost a = reversed@;
            let ghost d0 = declarations@;
            let it = reversed.pop().unwrap();
            declarations.push(it.1);
            proof {
                assert(a =~= reversed@.push(it));
                assert(items_view(a).reverse() =~= seq![(it.0, it.1@)] + items_view(reversed@).reverse());
                assert(declarations@.map_values(|d: Declaration| d@) =~= d0.map_values(|d: Declaration| d@).push(it.1@));
                assert(declarations@.map_values(|d: Declaration| d@) + items_view(reversed@).reverse().map_values(
                    |p: (usize, DeclarationModel)| p.1,
                ) =~= d0.map_values(|d: Declaration| d@) + items_view(a).reverse().map_values(
                    |p: (usize, DeclarationModel)| p.1,
                ));
            }
        }
        assert(items_view(reversed@).reverse() =~= Seq::<(usize, DeclarationModel)>::empty());
        assert(declarations@.map_values(|d: Declaration| d@) =~= sorted.map_values(|p: (usize, DeclarationModel)| p.1));
        declarations
    }

    /// The number in group `g` of a global-variable match.
    fn group_number(src: &Vec<char>, m: &Vec<Option<(usize, usize)>>, g: usize) -> (n: u32)
        requires
            match_in_bounds(m.deep_view(), src@.len()),
        ensures
            n == number_of(text_of(src@, group_of(m.deep_view(), g as int))),
    {
        match group_span(m, g) {
            Some(sp) => match parse_u32(src, sp.0, sp.1) {
                Some(v) => v,
                None => 0,
            },
            None => {
                assert(parse_u32_of(Seq::<char>::empty()) is None);
                0
            },
        }
    }

    /// Whether the group and binding numbers of every bound global variable
    /// in `source` fit in a `u32`.
    pub fn bindings_fit_exec(source: &str) -> (r: bool)
        ensures
            r == bindings_fit(source@),
    {
        let src = chars_of(source);
        let globals = find_matches(GLOBAL_PATTERN, source);
        let ghost gms = globals.deep_view();
        let mut i: usize = 0;
        while i < globals.len()
            invariant
                src@ == source@,
                gms == globals.deep_view(),
                gms == matches_of(GLOBAL_PATTERN@, source@),
                spans_in_bounds(gms, source@.len()),
                i <= globals@.len(),
                forall|j: int| 0 <= j < i ==> {
                    &&& parse_u32_of(text_of(source@, group_of(#[trigger] gms[j], 1))) is Some
                    &&& parse_u32_of(text_of(source@, group_of(gms[j], 2))) is Some
                },
            decreases globals@.len() - i,
        {
            proof {
                lemma_match_in_bounds(gms, source@.len(), i as int);
            }
            let m = &globals[i];
            assert(m.deep_view() == gms[i as int]);
            let ok1 = match group_span(m, 1) {
                Some(sp) => parse_u32(&src, sp.0, sp.1).is_some(),
                None => {
                    assert(parse_u32_of(Seq::<char>::empty()) is None);
                    false
                },
            };
            let ok2 = match group_span(m, 2) {
                Some(sp) => parse_u32(&src, sp.0, sp.1).is_some(),
                None => {
                    assert(parse_u32_of(Seq::<char>::empty()) is None);
                    false
                },
            };
            if !ok1 || !ok2 {
                return false;
            }
            i = i + 1;
        }
        true
    }

    /// Parses `source` when the group and binding numbers of its bound global
    /// variables fit in a `u32`; `None` otherwise.
    pub fn try_parse(source: &str) -> (p: Option<ParsedShader>)
        ensures
            p is Some <==> bindings_fit(source@),
            p matches Some(q) ==> q@ == parse_model(source@),
            p matches Some(q) ==> q.texture_references.keys_seq() == texture_names_of(source@),
    {
        if Self::bindings_fit_exec(source) {
            Some(Self::parse(source))
        } else {
            None
        }
    }

    /// The names of the texture variables.
    pub fn texture_names(&self) -> (r: Vec<&String>)
        ensures
            r@.len() == self.texture_references.keys_seq().len(),
            forall|i: int| 0 <= i < r@.len() ==> (#[trigger] r@[i])@ == self.texture_references.keys_seq()[i],
            self.texture_references.keys_seq().no_duplicates(),
            forall|k: Seq<char>| self@.texture_references.contains_key(k) <==> self.texture_references.keys_seq().contains(k),
    {
        self.texture_references.keys()
    }
}

pub proof fn lemma_find_char_from(s: Seq<char>, c: char, from: int)
    ensures
        find_char_from(s, c, from) matches Some(i) ==> from <= i < s.len() && s[i] == c,
    decreases s.len() - from,
{
    if 0 <= from < s.len() && s[from] != c {
        lemma_find_char_from(s, c, from + 1);
    }
}

pub proof fn lemma_matching_brace(s: Seq<char>, open: int)
    ensures
        matching_brace(s, open) matches Some(e) ==> open < e < s.len(),
{
    lemma_matching_close(s, open, '{', '}');
}

pub open spec fn items_view(items: Seq<(usize, Declaration)>) -> Seq<(usize, DeclarationModel)> {
    items.map_values(|it: (usize, Declaration)| (it.0, it.1@))
}

proof fn lemma_insert_by_position(s: Seq<(usize, DeclarationModel)>, x: (usize, DeclarationModel), k: int)
    requires
        0 <= k <= s.len(),
        forall|j: int| k <= j < s.len() ==> (#[trigger] s[j]).0 > x.0,
        k == 0 || s[k - 1].0 <= x.0,
    ensures
        insert_by_position(s, x) == s.insert(k, x),
    decreases s.len(),
{
    if s.len() == 0 {
        assert(s.insert(k, x) =~= seq![x]);
    } else if s.last().0 <= x.0 {
        assert(s.insert(k, x) =~= s.push(x));
    } else {
        lemma_insert_by_position(s.drop_last(), x, k);
        assert(s.drop_last().insert(k, x).push(s.last()) =~= s.insert(k, x));
    }
}

/// Inserts `x` after every item whose position is not greater than its own.
fn insert_item(items: &mut Vec<(usize, Declaration)>, x: (usize, Declaration))
    ensures
        items_view(final(items)@) == insert_by_position(items_view(old(items)@), (x.0, x.1@)),
{
    let mut k = items.len();
    while k > 0 && items[k - 1].0 > x.0
        invariant
            k <= items@.len(),
            forall|j: int| k <= j < items@.len() ==> (#[trigger] items@[j]).0 > x.0,
        decreases k,
    {
        k = k - 1;
    }
    let ghost s = items_view(items@);
    proof {
        lemma_insert_by_position(s, (x.0, x.1@), k as int);
    }
    let ghost xv = (x.0, x.1@);
    items.insert(k, x);
    assert(items_view(items@) =~= s.insert(k as int, xv));
}

/// The name that parameter match `m` finds in `slice`.
pub open spec fn matched_name(slice: Seq<char>, m: GroupSpans) -> Seq<char> {
    text_of(slice, group_of(m, 2))
}

/// Every parameter match names a parameter, and a parameter is recorded
/// from the last match of its name: its position is that match's place in
/// the parameter list, counted from zero left to right, with that match's
/// name and type. So parameters keep the order they are written in.
pub proof fn lemma_parameter_positions(slice: Seq<char>, ms: Seq<GroupSpans>)
    requires
        ms.len() <= usize::MAX,
    ensures
        forall|x: Seq<char>|
            #[trigger] parameters_of(slice, ms).contains_key(x) <==> exists|k: int|
                0 <= k < ms.len() && matched_name(slice, #[trigger] ms[k]) == x,
        forall|k: int|
            0 <= k < ms.len() && (forall|j: int| k < j < ms.len() ==> matched_name(slice, #[trigger] ms[j])
                != matched_name(slice, ms[k])) ==> {
                &&& parameters_of(slice, ms).contains_key(matched_name(slice, #[trigger] ms[k]))
                &&& parameters_of(slice, ms)[matched_name(slice, ms[k])].position == k
                &&& parameters_of(slice, ms)[matched_name(slice, ms[k])].name == matched_name(slice, ms[k])
                &&& parameters_of(slice, ms)[matched_name(slice, ms[k])].data_type == text_of(slice, group_of(ms[k], 3))
            },
{
    lemma_params_upto(slice, ms, ms.len() as int);
}

proof fn lemma_params_upto(slice: Seq<char>, ms: Seq<GroupSpans>, n: int)
    requires
        0 <= n <= ms.len(),
        ms.len() <= usize::MAX,
    ensures
        forall|x: Seq<char>|
            #[trigger] params_upto(slice, ms, n).contains_key(x) <==> exists|k: int|
                0 <= k < n && matched_name(slice, #[trigger] ms[k]) == x,
        forall|k: int|
            0 <= k < n && (forall|j: int| k < j < n ==> matched_name(slice, #[trigger] ms[j]) != matched_name(
                slice,
                ms[k],
            )) ==> {
                &&& params_upto(slice, ms, n).contains_key(matched_name(slice, #[trigger] ms[k]))
                &&& params_upto(slice, ms, n)[matched_name(slice, ms[k])].position == k
                &&& params_upto(slice, ms, n)[matched_name(slice, ms[k])].name == matched_name(slice, ms[k])
                &&& params_upto(slice, ms, n)[matched_name(slice, ms[k])].data_type == text_of(slice, group_of(ms[k], 3))
            },
    decreases n,
{
    if n > 0 {
        lemma_params_upto(slice, ms, n - 1);
        let last = matched_name(slice, ms[n - 1]);
        assert forall|x: Seq<char>|
            #[trigger] params_upto(slice, ms, n).contains_key(x) <==> exists|k: int|
                0 <= k < n && matched_name(slice, #[trigger] ms[k]) == x by {
            if x == last {
                assert(matched_name(slice, ms[n - 1]) == x);
            } else if params_upto(slice, ms, n).contains_key(x) {
                assert(params_upto(slice, ms, n - 1).contains_key(x));
            } else if exists|k: int| 0 <= k < n && matched_name(slice, #[trigger] ms[k]) == x {
                let k = choose|k: int| 0 <= k < n && matched_name(slice, #[trigger] ms[k]) == x;
                assert(k < n - 1);
                assert(params_upto(slice, ms, n - 1).contains_key(x));
            }
        }
        assert forall|k: int|
            0 <= k < n && (forall|j: int| k < j < n ==> matched_name(slice, #[trigger] ms[j]) != matched_name(
                slice,
                ms[k],
            )) implies {
                &&& params_upto(slice, ms, n).contains_key(matched_name(slice, #[trigger] ms[k]))
                &&& params_upto(slice, ms, n)[matched_name(slice, ms[k])].position == k
                &&& params_upto(slice, ms, n)[matched_name(slice, ms[k])].name == matched_name(slice, ms[k])
                &&& params_upto(slice, ms, n)[matched_name(slice, ms[k])].data_type == text_of(slice, group_of(ms[k], 3))
            } by {
            if k < n - 1 {
                assert(matched_name(slice, ms[n - 1]) != matched_name(slice, ms[k]));
                assert(forall|j: int| k < j < n - 1 ==> matched_name(slice, #[trigger] ms[j]) != matched_name(slice, ms[k]));
            }
        }
    }
}

} // verus!
