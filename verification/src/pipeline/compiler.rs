//! The decisions taken while compiling a pipeline: which shader a pass uses,
//! which variant of a fullscreen pass it is, and how its outputs map to
//! colour and depth attachments.

use vstd::prelude::*;

use crate::pipeline::def::{build_dag, pass_graph, valid_pass_order, PassDef, PipelineError, PipelineFile, ResourceDef};
use crate::pipeline::graph::{has_cycle, kahn_order};
use crate::pipeline::resource::{format_from_string, spec_pass_type, spec_texture_format, PassType};
use crate::text::{concat3, seq_contains_at_some, str_contains, str_eq};
use vstd::utf8::encode_utf8;

verus! {

// ---------------------------------------------------------------------------
// Shader choice
// ---------------------------------------------------------------------------

/// The built-in WGSL shaders a pass falls back to.
#[derive(Debug, Clone, Copy, PartialEq, Eq, Structural)]
pub enum FallbackShader {
    Gbuffer,
    SplatRender,
    DeferredLight,
    Bloom,
    Tonemap,
    Fxaa,
    ShadowDepth,
}

/// Where the WGSL of a pass comes from.
#[derive(Debug, Clone)]
pub enum ShaderSource {
    /// The pass's own SLANG shader, compiled to this WGSL.
    Compiled(String),
    /// A built-in shader.
    Fallback(FallbackShader),
}

/// `name` contains the literal `lit`.
pub open spec fn name_has(name: Seq<char>, lit: Seq<char>) -> bool {
    seq_contains_at_some(name, lit)
}

/// Geometry passes skip SLANG: its WGSL does not handle their dynamic-offset
/// uniform buffers.
pub open spec fn spec_skips_slang(name: Seq<char>) -> bool {
    name_has(name, "geometry"@) || name_has(name, "gbuffer"@)
}

/// The built-in shader for a pass, chosen by the words in its name.
pub open spec fn spec_fallback_shader(name: Seq<char>) -> Option<FallbackShader> {
    if name_has(name, "geometry"@) || name_has(name, "gbuffer"@) {
        Some(FallbackShader::Gbuffer)
    } else if name_has(name, "splat"@) && !name_has(name, "light"@) {
        Some(FallbackShader::SplatRender)
    } else if name_has(name, "light"@) {
        Some(FallbackShader::DeferredLight)
    } else if name_has(name, "bloom"@) {
        Some(FallbackShader::Bloom)
    } else if name_has(name, "tonemap"@) {
        Some(FallbackShader::Tonemap)
    } else if name_has(name, "fxaa"@) {
        Some(FallbackShader::Fxaa)
    } else if name_has(name, "shadow"@) {
        Some(FallbackShader::ShadowDepth)
    } else {
        None
    }
}

/// The built-in shader of a fullscreen pass is the one of its variant: a
/// tonemap, FXAA or bloom pass gets the tonemap, FXAA or bloom shader, and a
/// pass named by none of these words gets none. (The two choices rank the
/// words differently, so a name holding bloom together with tonemap or FXAA
/// is left out.)
pub proof fn lemma_fallback_matches_fullscreen_kind(name: Seq<char>, has_splat_targets: bool)
    requires
        !name_has(name, "geometry"@),
        !name_has(name, "gbuffer"@),
        !name_has(name, "splat"@),
        !name_has(name, "light"@),
        !name_has(name, "shadow"@),
        !(name_has(name, "bloom"@) && (name_has(name, "tonemap"@) || name_has(name, "fxaa"@))),
    ensures
        spec_fallback_shader(name) == match spec_fullscreen_kind(name, has_splat_targets) {
            FullscreenKind::Tonemap => Some(FallbackShader::Tonemap),
            FullscreenKind::Fxaa => Some(FallbackShader::Fxaa),
            FullscreenKind::Bloom => Some(FallbackShader::Bloom),
            FullscreenKind::Lighting { .. } => None::<FallbackShader>,
        },
{
}

/// A pass that skips SLANG (a geometry pass) gets the G-buffer shader.
pub proof fn lemma_geometry_passes_use_gbuffer_shader(name: Seq<char>)
    requires
        spec_skips_slang(name),
    ensures
        spec_fallback_shader(name) == Some(FallbackShader::Gbuffer),
{
}

/// Whether the pass's SLANG shader is to be tried: it exists and the pass is
/// no geometry pass.
pub fn should_try_slang(shader_exists: bool, pass_name: &str) -> (r: bool)
    ensures
        r == (shader_exists && !spec_skips_slang(pass_name@)),
{
    shader_exists && !(str_contains(pass_name, "geometry") || str_contains(pass_name, "gbuffer"))
}

/// The built-in shader a pass falls back to; a pass whose name matches none
/// is a `ShaderError`.
pub fn fallback_shader(pass_name: &str) -> (r: Result<FallbackShader, PipelineError>)
    ensures
        match spec_fallback_shader(pass_name@) {
            Some(f) => r == Ok::<FallbackShader, PipelineError>(f),
            None => r matches Err(PipelineError::ShaderError(msg)) && msg@
                == "No fallback WGSL for pass '"@ + pass_name@ + "'"@,
        },
{
    if str_contains(pass_name, "geometry") || str_contains(pass_name, "gbuffer") {
        Ok(FallbackShader::Gbuffer)
    } else if str_contains(pass_name, "splat") && !str_contains(pass_name, "light") {
        Ok(FallbackShader::SplatRender)
    } else if str_contains(pass_name, "light") {
        Ok(FallbackShader::DeferredLight)
    } else if str_contains(pass_name, "bloom") {
        Ok(FallbackShader::Bloom)
    } else if str_contains(pass_name, "tonemap") {
        Ok(FallbackShader::Tonemap)
    } else if str_contains(pass_name, "fxaa") {
        Ok(FallbackShader::Fxaa)
    } else if str_contains(pass_name, "shadow") {
        Ok(FallbackShader::ShadowDepth)
    } else {
        Err(PipelineError::ShaderError(concat3("No fallback WGSL for pass '", pass_name, "'")))
    }
}

/// The shader a pass gets: the SLANG output when the attempt made for it
/// (see `should_try_slang`) succeeded, else its built-in fallback.
pub fn compile_pass_shader(pass_name: &str, slang_output: Option<String>) -> (r: Result<
    ShaderSource,
    PipelineError,
>)
    ensures
        match slang_output {
            Some(wgsl) => r matches Ok(ShaderSource::Compiled(w)) && w@ == wgsl@,
            None => match spec_fallback_shader(pass_name@) {
                Some(f) => r matches Ok(ShaderSource::Fallback(g)) && g == f,
                None => r matches Err(PipelineError::ShaderError(msg)) && msg@
                    == "No fallback WGSL for pass '"@ + pass_name@ + "'"@,
            },
        },
{
    match slang_output {
        Some(wgsl) => Ok(ShaderSource::Compiled(wgsl)),
        None => match fallback_shader(pass_name) {
            Ok(f) => Ok(ShaderSource::Fallback(f)),
            Err(e) => Err(e),
        },
    }
}

// ---------------------------------------------------------------------------
// Fullscreen variants
// ---------------------------------------------------------------------------

/// The kinds of fullscreen pass, told apart by name.
#[derive(Debug, Clone, Copy, PartialEq, Eq, Structural)]
pub enum FullscreenKind {
    Tonemap,
    Fxaa,
    Bloom,
    /// Deferred lighting, compositing splats when the splat targets exist.
    Lighting { with_splats: bool },
}

/// The variant of a fullscreen pass.
pub open spec fn spec_fullscreen_kind(name: Seq<char>, has_splat_targets: bool) -> FullscreenKind {
    if name_has(name, "tonemap"@) {
        FullscreenKind::Tonemap
    } else if name_has(name, "fxaa"@) {
        FullscreenKind::Fxaa
    } else if name_has(name, "bloom"@) {
        FullscreenKind::Bloom
    } else {
        FullscreenKind::Lighting { with_splats: has_splat_targets }
    }
}

/// Picks the variant of a fullscreen pass from its name; `has_splat_targets`
/// tells whether both `splat_color` and `splat_depth` resources exist.
pub fn fullscreen_kind(pass_name: &str, has_splat_targets: bool) -> (r: FullscreenKind)
    ensures
        r == spec_fullscreen_kind(pass_name@, has_splat_targets),
{
    if str_contains(pass_name, "tonemap") {
        FullscreenKind::Tonemap
    } else if str_contains(pass_name, "fxaa") {
        FullscreenKind::Fxaa
    } else if str_contains(pass_name, "bloom") {
        FullscreenKind::Bloom
    } else {
        FullscreenKind::Lighting { with_splats: has_splat_targets }
    }
}

// ---------------------------------------------------------------------------
// Attachments
// ---------------------------------------------------------------------------

/// Colour and depth attachments of a pass.
#[derive(Debug, Clone)]
pub struct PassTargets {
    pub color_targets: Vec<String>,
    pub depth_target: Option<String>,
}

/// Attachment order of an output slot: colour first, then normal, then
/// emission, then any other slot by the byte length of its name.
pub open spec fn slot_rank(slot: Seq<char>) -> int {
    if slot == "color"@ || slot == "albedo"@ {
        0
    } else if slot == "normal"@ {
        1
    } else if slot == "emission"@ {
        2
    } else {
        3 + encode_utf8(slot).len() as int
    }
}

/// Inserts `x` after every entry of rank at most its own.
pub open spec fn insert_by_rank(sorted: Seq<(Seq<char>, Seq<char>)>, x: (Seq<char>, Seq<char>)) -> Seq<
    (Seq<char>, Seq<char>),
> {
    sorted.insert(first_ranked_above(sorted, slot_rank(x.0), 0), x)
}

/// The first index at or after `j` whose rank exceeds `r` (or the length).
pub open spec fn first_ranked_above(s: Seq<(Seq<char>, Seq<char>)>, r: int, j: int) -> int
    decreases s.len() - j,
{
    if j < 0 || j >= s.len() {
        s.len() as int
    } else if slot_rank(s[j].0) > r {
        j
    } else {
        first_ranked_above(s, r, j + 1)
    }
}

/// The stable sort of `l` by slot rank.
pub open spec fn sort_by_rank(l: Seq<(Seq<char>, Seq<char>)>) -> Seq<(Seq<char>, Seq<char>)>
    decreases l.len(),
{
    if l.len() == 0 {
        l
    } else {
        insert_by_rank(sort_by_rank(l.drop_last()), l.last())
    }
}

/// The outputs are in slot-rank order.
pub open spec fn ranked(s: Seq<(Seq<char>, Seq<char>)>) -> bool {
    forall|i: int, j: int| 0 <= i < j < s.len() ==> slot_rank((#[trigger] s[i]).0) <= slot_rank((#[trigger] s[j]).0)
}

proof fn lemma_first_ranked_above(s: Seq<(Seq<char>, Seq<char>)>, r: int, j: int)
    requires
        0 <= j <= s.len(),
    ensures
        j <= first_ranked_above(s, r, j) <= s.len(),
        forall|k: int| j <= k < first_ranked_above(s, r, j) ==> slot_rank((#[trigger] s[k]).0) <= r,
        first_ranked_above(s, r, j) < s.len() ==> slot_rank(s[first_ranked_above(s, r, j)].0) > r,
    decreases s.len() - j,
{
    if j < s.len() && slot_rank(s[j].0) <= r {
        lemma_first_ranked_above(s, r, j + 1);
    }
}

/// Colour attachments come out in slot-rank order (colour, then normal,
/// then emission, then the other slots by name length), each output exactly
/// once: the sort keeps every output and puts no slot before one of lower
/// rank.
pub proof fn lemma_sort_by_rank_orders(l: Seq<(Seq<char>, Seq<char>)>)
    ensures
        ranked(sort_by_rank(l)),
        sort_by_rank(l).to_multiset() == l.to_multiset(),
    decreases l.len(),
{
    if l.len() > 0 {
        let prev = sort_by_rank(l.drop_last());
        lemma_sort_by_rank_orders(l.drop_last());
        let x = l.last();
        let r = slot_rank(x.0);
        let p = first_ranked_above(prev, r, 0);
        lemma_first_ranked_above(prev, r, 0);
        let out = prev.insert(p, x);
        assert(out == sort_by_rank(l));
        assert forall|i: int, j: int| 0 <= i < j < out.len() implies slot_rank((#[trigger] out[i]).0) <= slot_rank(
            (#[trigger] out[j]).0,
        ) by {
            if j < p {
                assert(out[i] == prev[i] && out[j] == prev[j]);
            } else if j == p {
                assert(out[i] == prev[i]);
            } else if i < p {
                assert(out[i] == prev[i] && out[j] == prev[j - 1]);
                if p < prev.len() {
                    assert(slot_rank(prev[i].0) <= r);
                }
            } else if i == p {
                assert(out[j] == prev[j - 1]);
                assert(slot_rank(prev[p].0) > r);
                if j - 1 > p {
                    assert(slot_rank(prev[p].0) <= slot_rank(prev[j - 1].0));
                }
            } else {
                assert(out[i] == prev[i - 1] && out[j] == prev[j - 1]);
            }
        }
        assert(l =~= l.drop_last().push(x));
        vstd::seq_lib::to_multiset_build(l.drop_last(), x);
        vstd::seq_lib::to_multiset_insert(prev, p, x);
    }
}

/// Three distinct values fill a sequence of length three.
proof fn lemma_three_fill<A>(s: Seq<A>, a: A, b: A, c: A)
    requires
        s.len() == 3,
        a != b && b != c && a != c,
        s.contains(a),
        s.contains(b),
        s.contains(c),
    ensures
        forall|i: int| 0 <= i < 3 ==> #[trigger] s[i] == a || s[i] == b || s[i] == c,
{
    let ia = choose|i: int| 0 <= i < s.len() && s[i] == a;
    let ib = choose|i: int| 0 <= i < s.len() && s[i] == b;
    let ic = choose|i: int| 0 <= i < s.len() && s[i] == c;
    assert(ia != ib && ib != ic && ia != ic);
}

/// The usual G-buffer outputs, listed in any order, give the colour
/// attachments colour, normal, emission (the shader's locations 0, 1 and 2)
/// and the depth attachment apart.
pub proof fn lemma_standard_slots(
    outs: Seq<(Seq<char>, Seq<char>)>,
    c: Seq<char>,
    n: Seq<char>,
    e: Seq<char>,
    d: Seq<char>,
)
    requires
        outs.len() == 4,
        outs.contains(("color"@, c)),
        outs.contains(("normal"@, n)),
        outs.contains(("emission"@, e)),
        outs.contains(("depth"@, d)),
    ensures
        sort_by_rank(color_outputs(outs)).map_values(|o: (Seq<char>, Seq<char>)| o.1) == seq![c, n, e],
        depth_output(outs) == Some(d),
{
    reveal_strlit("color");
    reveal_strlit("albedo");
    reveal_strlit("normal");
    reveal_strlit("emission");
    reveal_strlit("depth");
    let oc = ("color"@, c);
    let on = ("normal"@, n);
    let oe = ("emission"@, e);
    let od = ("depth"@, d);
    assert("color"@.len() != "normal"@.len() && "color"@.len() != "emission"@.len());
    assert("color"@[0] != "depth"@[0]);
    assert("normal"@.len() != "emission"@.len() && "normal"@.len() != "depth"@.len());
    assert("emission"@.len() != "depth"@.len());
    assert("color"@ != "normal"@ && "color"@ != "emission"@ && "color"@ != "depth"@);
    assert("normal"@ != "emission"@ && "normal"@ != "depth"@ && "emission"@ != "depth"@);
    assert("normal"@[0] != "albedo"@[0] && "emission"@.len() != "albedo"@.len());
    assert(slot_rank(oc.0) == 0 && slot_rank(on.0) == 1 && slot_rank(oe.0) == 2);
    let ic = choose|i: int| 0 <= i < outs.len() && outs[i] == oc;
    let i_n = choose|i: int| 0 <= i < outs.len() && outs[i] == on;
    let ie = choose|i: int| 0 <= i < outs.len() && outs[i] == oe;
    let id = choose|i: int| 0 <= i < outs.len() && outs[i] == od;
    assert(ic != i_n && ic != ie && ic != id && i_n != ie && i_n != id && ie != id);
    // the colour outputs are the three others, in listed order
    let keep = |o: (Seq<char>, Seq<char>)| o.0 != "depth"@;
    let co = color_outputs(outs);
    assert(co == outs.filter(keep));
    reveal_with_fuel(Seq::filter, 5);
    assert(outs.drop_last().drop_last().drop_last().drop_last() =~= Seq::<(Seq<char>, Seq<char>)>::empty());
    assert(co.len() == 3);
    #[allow(deprecated)]
    outs.filter_lemma(keep);
    assert(co.contains(outs[ic]));
    assert(co.contains(outs[i_n]));
    assert(co.contains(outs[ie]));
    // sorting keeps them and orders them by rank
    let r = sort_by_rank(co);
    lemma_sort_by_rank_orders(co);
    vstd::seq_lib::to_multiset_len(co);
    vstd::seq_lib::to_multiset_len(r);
    vstd::seq_lib::to_multiset_contains(co, oc);
    vstd::seq_lib::to_multiset_contains(r, oc);
    vstd::seq_lib::to_multiset_contains(co, on);
    vstd::seq_lib::to_multiset_contains(r, on);
    vstd::seq_lib::to_multiset_contains(co, oe);
    vstd::seq_lib::to_multiset_contains(r, oe);
    lemma_three_fill(r, oc, on, oe);
    assert(slot_rank(r[0].0) <= slot_rank(r[1].0) && slot_rank(r[1].0) <= slot_rank(r[2].0));
    assert(r[0] == oc && r[1] == on && r[2] == oe) by {
        let jc = choose|i: int| 0 <= i < r.len() && r[i] == oc;
        let jn = choose|i: int| 0 <= i < r.len() && r[i] == on;
        let je = choose|i: int| 0 <= i < r.len() && r[i] == oe;
        assert(slot_rank(r[jc].0) == 0 && slot_rank(r[jn].0) == 1 && slot_rank(r[je].0) == 2);
    }
    assert(r.map_values(|o: (Seq<char>, Seq<char>)| o.1) =~= seq![c, n, e]);
    // the depth output is the one bound to `depth`
    reveal_with_fuel(depth_output, 5);
}

/// Slot and resource names of an output list, as sequences.
pub open spec fn outputs_view(outputs: Seq<(String, String)>) -> Seq<(Seq<char>, Seq<char>)> {
    outputs.map_values(|o: (String, String)| (o.0@, o.1@))
}

/// The outputs that are colour attachments, in their listed order.
pub open spec fn color_outputs(outputs: Seq<(Seq<char>, Seq<char>)>) -> Seq<(Seq<char>, Seq<char>)> {
    outputs.filter(|o: (Seq<char>, Seq<char>)| o.0 != "depth"@)
}

/// The resource bound to the `depth` slot (the last such binding).
pub open spec fn depth_output(outputs: Seq<(Seq<char>, Seq<char>)>) -> Option<Seq<char>>
    decreases outputs.len(),
{
    if outputs.len() == 0 {
        None
    } else if outputs.last().0 == "depth"@ {
        Some(outputs.last().1)
    } else {
        depth_output(outputs.drop_last())
    }
}

fn rank_of(slot: &String) -> (r: u64)
    requires
        encode_utf8(slot@).len() <= u32::MAX - 3,
    ensures
        r == slot_rank(slot@),
{
    if str_eq(slot.as_str(), "color") || str_eq(slot.as_str(), "albedo") {
        0
    } else if str_eq(slot.as_str(), "normal") {
        1
    } else if str_eq(slot.as_str(), "emission") {
        2
    } else {
        let s = slot.as_str();
        let n = s.len();
        proof {
            assert(s@ == slot@);
            assert(n == encode_utf8(slot@).len());
        }
        3 + n as u64
    }
}

/// Splits a pass's outputs into colour attachments, ordered by slot rank with
/// ties kept in listed order, and the depth attachment.
pub fn pass_targets(outputs: &Vec<(String, String)>) -> (r: PassTargets)
    requires
        forall|k: int|
            0 <= k < outputs@.len() ==> encode_utf8((#[trigger] outputs@[k]).0@).len() <= u32::MAX - 3,
    ensures
        r.color_targets@.map_values(|s: String| s@) == sort_by_rank(
            color_outputs(outputs_view(outputs@)),
        ).map_values(|o: (Seq<char>, Seq<char>)| o.1),
        match r.depth_target {
            Some(d) => depth_output(outputs_view(outputs@)) == Some(d@),
            None => depth_output(outputs_view(outputs@)) is None,
        },
{
    let ghost ov = outputs_view(outputs@);
    let mut depth: Option<String> = None;
    // sorted colour outputs with their ranks
    let mut sorted: Vec<(u64, String)> = Vec::new();
    let ghost mut sorted_spec: Seq<(Seq<char>, Seq<char>)> = Seq::empty();
    let mut i: usize = 0;
    while i < outputs.len()
        invariant
            ov == outputs_view(outputs@),
            i <= outputs@.len(),
            forall|k: int|
                0 <= k < outputs@.len() ==> encode_utf8((#[trigger] outputs@[k]).0@).len() <= u32::MAX
                    - 3,
            sorted_spec == sort_by_rank(color_outputs(ov.take(i as int))),
            sorted@.len() == sorted_spec.len(),
            forall|k: int|
                0 <= k < sorted@.len() ==> (#[trigger] sorted@[k]).0 == slot_rank(sorted_spec[k].0)
                    && sorted@[k].1@ == sorted_spec[k].1,
            match depth {
                Some(d) => depth_output(ov.take(i as int)) == Some(d@),
                None => depth_output(ov.take(i as int)) is None,
            },
        decreases outputs@.len() - i,
    {
        let slot = &outputs[i].0;
        let res = &outputs[i].1;
        proof {
            assert(ov.take(i + 1).drop_last() =~= ov.take(i as int));
            assert(ov.take(i + 1).last() == (slot@, res@));
            assert(ov[i as int] == (slot@, res@));
        }
        if str_eq(slot.as_str(), "depth") {
            depth = Some(res.clone());
            proof {
                assert(color_outputs(ov.take(i + 1)) =~= color_outputs(ov.take(i as int))) by {
                    reveal(Seq::filter);
                }
            }
        } else {
            let r = rank_of(slot);
            // first position whose rank is above `r`
            let mut p: usize = 0;
            while p < sorted.len() && sorted[p].0 <= r
                invariant
                    p <= sorted@.len(),
                    sorted@.len() == sorted_spec.len(),
                    r == slot_rank(slot@),
                    forall|k: int|
                        0 <= k < sorted@.len() ==> (#[trigger] sorted@[k]).0 == slot_rank(sorted_spec[k].0),
                    first_ranked_above(sorted_spec, r as int, 0) == first_ranked_above(
                        sorted_spec,
                        r as int,
                        p as int,
                    ),
                decreases sorted@.len() - p,
            {
                p = p + 1;
            }
            proof {
                assert(first_ranked_above(sorted_spec, r as int, p as int) == p);
                assert(color_outputs(ov.take(i + 1)) =~= color_outputs(ov.take(i as int)).push(
                    (slot@, res@),
                )) by {
                    reveal(Seq::filter);
                }
                let l = color_outputs(ov.take(i as int));
                assert(l.push((slot@, res@)).drop_last() =~= l);
                assert(sort_by_rank(l.push((slot@, res@))) == insert_by_rank(sort_by_rank(l), (slot@, res@)));
                sorted_spec = sorted_spec.insert(p as int, (slot@, res@));
            }
            let ghost before = sorted@;
            sorted.insert(p, (r, res.clone()));
            proof {
                assert forall|k: int| 0 <= k < sorted@.len() implies (#[trigger] sorted@[k]).0
                    == slot_rank(sorted_spec[k].0) && sorted@[k].1@ == sorted_spec[k].1 by {
                    if k > p {
                        assert(sorted@[k] == before[k - 1]);
                    }
                }
            }
        }
        i = i + 1;
    }
    let mut color_targets: Vec<String> = Vec::new();
    let mut j: usize = 0;
    while j < sorted.len()
        invariant
            j <= sorted@.len(),
            sorted@.len() == sorted_spec.len(),
            forall|k: int| 0 <= k < sorted@.len() ==> (#[trigger] sorted@[k]).1@ == sorted_spec[k].1,
            color_targets@.len() == j,
            forall|k: int| 0 <= k < j ==> (#[trigger] color_targets@[k])@ == sorted_spec[k].1,
        decreases sorted@.len() - j,
    {
        color_targets.push(sorted[j].1.clone());
        j = j + 1;
    }
    proof {
        assert(ov.take(outputs@.len() as int) =~= ov);
        assert(color_targets@.map_values(|s: String| s@) =~= sorted_spec.map_values(
            |o: (Seq<char>, Seq<char>)| o.1,
        ));
    }
    PassTargets { color_targets, depth_target: depth }
}


// ---------------------------------------------------------------------------
// Planning a pass
// ---------------------------------------------------------------------------

/// The render pipeline a pass gets.
#[derive(Debug, Clone, Copy, PartialEq, Eq, Structural)]
pub enum PassPipeline {
    Rasterize,
    Fullscreen(FullscreenKind),
    Splat,
    Shadow,
}

/// Everything decided about a pass before its GPU objects are made.
#[derive(Debug, Clone)]
pub struct PassPlan {
    pub pass_type: PassType,
    pub pipeline: PassPipeline,
    pub targets: PassTargets,
    pub shader: ShaderSource,
}

/// The pipeline for a pass of a known type; compute passes have none.
pub open spec fn spec_pass_pipeline(t: PassType, name: Seq<char>, has_splat_targets: bool) -> Option<PassPipeline> {
    match t {
        PassType::Rasterize => Some(PassPipeline::Rasterize),
        PassType::Fullscreen => Some(PassPipeline::Fullscreen(spec_fullscreen_kind(name, has_splat_targets))),
        PassType::Splat => Some(PassPipeline::Splat),
        PassType::Shadow => Some(PassPipeline::Shadow),
        PassType::Compute => None,
    }
}

/// What planning `pass` gives, in the order the checks are made: its type
/// must be known; its shader is the SLANG output or a built-in one; compute
/// passes are not supported; otherwise the plan holds its type, pipeline,
/// attachments (colour outputs by slot rank, then the depth output) and
/// shader.
pub open spec fn plan_outcome(
    pass: PassDef,
    slang_output: Option<String>,
    has_splat_targets: bool,
    r: Result<PassPlan, PipelineError>,
) -> bool {
    match spec_pass_type(pass.pass_type@) {
        None => r matches Err(PipelineError::InvalidFormat(m)) && m@ == "Unknown pass type: '"@
            + pass.pass_type@ + "'"@,
        Some(t) => match (slang_output, spec_fallback_shader(pass.name@)) {
            (None, None) => r matches Err(PipelineError::ShaderError(m)) && m@ == "No fallback WGSL for pass '"@
                + pass.name@ + "'"@,
            _ => match spec_pass_pipeline(t, pass.name@, has_splat_targets) {
                None => r matches Err(PipelineError::InvalidFormat(m)) && m@
                    == "Compute passes not yet supported"@,
                Some(pl) => r matches Ok(plan) && plan.pass_type == t && plan.pipeline == pl
                    && plan.targets.color_targets@.map_values(|s: String| s@) == sort_by_rank(
                    color_outputs(outputs_view(pass.outputs@)),
                ).map_values(|o: (Seq<char>, Seq<char>)| o.1) && (match plan.targets.depth_target {
                    Some(d) => depth_output(outputs_view(pass.outputs@)) == Some(d@),
                    None => depth_output(outputs_view(pass.outputs@)) is None,
                }) && (match slang_output {
                    Some(w) => plan.shader matches ShaderSource::Compiled(c) && c@ == w@,
                    None => plan.shader matches ShaderSource::Fallback(f) && spec_fallback_shader(pass.name@)
                        == Some(f),
                }),
            },
        },
    }
}

/// The output names of the pass are short enough to measure in bytes.
pub open spec fn outputs_measurable(pass: PassDef) -> bool {
    forall|k: int|
        0 <= k < pass.outputs@.len() ==> encode_utf8((#[trigger] pass.outputs@[k]).0@).len() <= u32::MAX - 3
}

/// How a pass is compiled, in the order the checks are made: its type must
/// be known; its outputs give its attachments; its shader is the SLANG
/// output or a built-in one; and compute passes are not supported.
/// `slang_output` is what compiling the pass's SLANG shader gave, when it
/// was tried and succeeded (see `should_try_slang`); `has_splat_targets`
/// tells whether the `splat_color` and `splat_depth` resources exist.
pub fn plan_pass(pass: &PassDef, slang_output: Option<String>, has_splat_targets: bool) -> (r: Result<PassPlan, PipelineError>)
    requires
        pass.well_formed(),
        outputs_measurable(*pass),
    ensures
        plan_outcome(*pass, slang_output, has_splat_targets, r),
{
    let pass_type = match PassType::from_str(pass.pass_type.as_str()) {
        Some(t) => t,
        None => {
            return Err(PipelineError::InvalidFormat(concat3("Unknown pass type: '", pass.pass_type.as_str(), "'")));
        },
    };
    let targets = pass_targets(&pass.outputs);
    let shader = match compile_pass_shader(pass.name.as_str(), slang_output) {
        Ok(s) => s,
        Err(e) => {
            return Err(e);
        },
    };
    let pipeline = match pass_type {
        PassType::Rasterize => PassPipeline::Rasterize,
        PassType::Fullscreen => PassPipeline::Fullscreen(fullscreen_kind(pass.name.as_str(), has_splat_targets)),
        PassType::Splat => PassPipeline::Splat,
        PassType::Shadow => PassPipeline::Shadow,
        PassType::Compute => {
            return Err(PipelineError::InvalidFormat("Compute passes not yet supported".to_owned()));
        },
    };
    Ok(PassPlan { pass_type, pipeline, targets, shader })
}

// ---------------------------------------------------------------------------
// Planning a whole pipeline
// ---------------------------------------------------------------------------

/// The SLANG output a pass uses: none for geometry passes, which skip SLANG,
/// else what compiling its shader gave.
pub open spec fn effective_slang(pass: PassDef, compiled: Option<String>) -> Option<String> {
    if spec_skips_slang(pass.name@) {
        None
    } else {
        compiled
    }
}

/// Planning the pass succeeds.
pub open spec fn plan_succeeds(pass: PassDef, slang_output: Option<String>, has_splat_targets: bool) -> bool {
    match spec_pass_type(pass.pass_type@) {
        None => false,
        Some(t) => !(slang_output is None && spec_fallback_shader(pass.name@) is None) && spec_pass_pipeline(
            t,
            pass.name@,
            has_splat_targets,
        ) is Some,
    }
}

/// A resource of that name is declared.
pub open spec fn has_resource(resources: Seq<ResourceDef>, name: Seq<char>) -> bool {
    exists|j: int| 0 <= j < resources.len() && (#[trigger] resources[j]).name@ == name
}

/// Both splat targets are declared.
pub open spec fn splat_targets(resources: Seq<ResourceDef>) -> bool {
    has_resource(resources, "splat_color"@) && has_resource(resources, "splat_depth"@)
}

/// The format of the resource is known.
pub open spec fn format_known(r: ResourceDef) -> bool {
    spec_texture_format(r.format@) is Some
}

/// Resource `j` is the first whose format is unknown.
pub open spec fn first_unknown_format(resources: Seq<ResourceDef>, j: int) -> bool {
    &&& 0 <= j < resources.len()
    &&& !format_known(resources[j])
    &&& forall|k: int| 0 <= k < j ==> format_known(#[trigger] resources[k])
}

/// Pass `i` is the first whose planning fails.
pub open spec fn first_failing_pass(passes: Seq<PassDef>, slang: Seq<Option<String>>, splat: bool, i: int) -> bool {
    &&& 0 <= i < passes.len()
    &&& !plan_succeeds(passes[i], effective_slang(passes[i], slang[i]), splat)
    &&& forall|k: int| 0 <= k < i ==> plan_succeeds(#[trigger] passes[k], effective_slang(passes[k], slang[k]), splat)
}

/// A planned pipeline: the order its passes run in, and each pass's plan, in
/// the order the passes are listed.
#[derive(Debug, Clone)]
pub struct PipelinePlan {
    pub order: Vec<usize>,
    pub passes: Vec<PassPlan>,
    pub has_splat_targets: bool,
}

/// Every declared resource has a known format.
pub open spec fn all_formats_known(resources: Seq<ResourceDef>) -> bool {
    forall|j: int| 0 <= j < resources.len() ==> format_known(#[trigger] resources[j])
}

/// The result is the error for a cycle among the passes.
pub open spec fn is_cycle_error<T>(r: Result<T, PipelineError>) -> bool {
    match r {
        Err(PipelineError::DagCycle(m)) => m@ == "Cycle detected in render pass dependencies"@,
        _ => false,
    }
}

/// The result is the error for an unknown texture format `format`.
pub open spec fn is_format_error<T>(r: Result<T, PipelineError>, format: Seq<char>) -> bool {
    match r {
        Err(PipelineError::InvalidFormat(m)) => m@ == "Unknown texture format: '"@ + format + "'"@,
        _ => false,
    }
}

/// The result is the error that planning the pass gives.
pub open spec fn is_pass_error<T>(
    r: Result<T, PipelineError>,
    pass: PassDef,
    slang_output: Option<String>,
    has_splat_targets: bool,
) -> bool {
    match r {
        Err(e) => plan_outcome(pass, slang_output, has_splat_targets, Err::<PassPlan, PipelineError>(e)),
        Ok(_) => false,
    }
}

/// The result is the plan of the passes: the Kahn order of their
/// dependencies, which runs every writer of a resource before its readers,
/// and each pass's own plan.
pub open spec fn is_pipeline_plan(
    r: Result<PipelinePlan, PipelineError>,
    passes: Seq<PassDef>,
    compiled: Seq<Option<String>>,
    splat: bool,
) -> bool {
    match r {
        Ok(p) => {
            &&& p.order@ == kahn_order(pass_graph(passes))
            &&& valid_pass_order(passes, p.order@)
            &&& p.has_splat_targets == splat
            &&& p.passes@.len() == passes.len()
            &&& forall|i: int|
                0 <= i < passes.len() ==> plan_outcome(
                    #[trigger] passes[i],
                    effective_slang(passes[i], compiled[i]),
                    splat,
                    Ok::<PassPlan, PipelineError>(p.passes@[i]),
                )
        },
        Err(_) => false,
    }
}

fn declares_resource(resources: &Vec<ResourceDef>, name: &str) -> (b: bool)
    ensures
        b == has_resource(resources@, name@),
{
    let mut j: usize = 0;
    while j < resources.len()
        invariant
            j <= resources@.len(),
            forall|k: int| 0 <= k < j ==> (#[trigger] resources@[k]).name@ != name@,
        decreases resources@.len() - j,
    {
        if str_eq(resources[j].name.as_str(), name) {
            return true;
        }
        j = j + 1;
    }
    false
}

fn compiled_output(pass: &PassDef, compiled: &Option<String>) -> (r: Option<String>)
    ensures
        r == effective_slang(*pass, *compiled) || (r matches Some(a) && effective_slang(*pass, *compiled) matches Some(
            b,
        ) && a@ == b@),
        r is Some <==> effective_slang(*pass, *compiled) is Some,
{
    if !should_try_slang(true, pass.name.as_str()) {
        return None;
    }
    match compiled {
        Some(w) => Some(w.clone()),
        None => None,
    }
}

/// Everything decided when a pipeline is compiled, in the order the checks
/// are made: the pass order (a dependency cycle fails first); each declared
/// resource's format (the first unknown one fails); then each pass, in the
/// order listed, planned with what compiling its SLANG shader gave
/// (`compiled[i]`, ignored for geometry passes), the first failing pass
/// failing the whole.
pub fn plan_pipeline(pf: &PipelineFile, compiled: &Vec<Option<String>>) -> (r: Result<PipelinePlan, PipelineError>)
    requires
        compiled@.len() == pf.passes@.len(),
        forall|i: int| 0 <= i < pf.passes@.len() ==> (#[trigger] pf.passes@[i]).well_formed() && outputs_measurable(
            pf.passes@[i],
        ),
    ensures
        r is Ok <==> !has_cycle(pass_graph(pf.passes@)) && all_formats_known(pf.resources@) && forall|i: int|
            0 <= i < pf.passes@.len() ==> plan_succeeds(
                #[trigger] pf.passes@[i],
                effective_slang(pf.passes@[i], compiled@[i]),
                splat_targets(pf.resources@),
            ),
        has_cycle(pass_graph(pf.passes@)) ==> is_cycle_error(r),
        !has_cycle(pass_graph(pf.passes@)) && (exists|j: int| first_unknown_format(pf.resources@, j)) ==> exists|
            j: int,
        | first_unknown_format(pf.resources@, j) && is_format_error(r, pf.resources@[j].format@),
        !has_cycle(pass_graph(pf.passes@)) && all_formats_known(pf.resources@) && (exists|i: int|
            first_failing_pass(pf.passes@, compiled@, splat_targets(pf.resources@), i)) ==> exists|i: int|
            first_failing_pass(pf.passes@, compiled@, splat_targets(pf.resources@), i) && is_pass_error(
                r,
                pf.passes@[i],
                effective_slang(pf.passes@[i], compiled@[i]),
                splat_targets(pf.resources@),
            ),
        !has_cycle(pass_graph(pf.passes@)) && all_formats_known(pf.resources@) && (forall|i: int|
            0 <= i < pf.passes@.len() ==> plan_succeeds(
                #[trigger] pf.passes@[i],
                effective_slang(pf.passes@[i], compiled@[i]),
                splat_targets(pf.resources@),
            )) ==> is_pipeline_plan(r, pf.passes@, compiled@, splat_targets(pf.resources@)),
{
    let order = match build_dag(pf.passes.as_slice()) {
        Ok(o) => o,
        Err(e) => {
            return Err(e);
        },
    };
    let mut j: usize = 0;
    while j < pf.resources.len()
        invariant
            j <= pf.resources@.len(),
            !has_cycle(pass_graph(pf.passes@)),
            forall|k: int| 0 <= k < j ==> format_known(#[trigger] pf.resources@[k]),
        decreases pf.resources@.len() - j,
    {
        match format_from_string(pf.resources[j].format.as_str()) {
            Ok(_) => {},
            Err(e) => {
                proof {
                    assert(first_unknown_format(pf.resources@, j as int));
                }
                return Err(e);
            },
        }
        j = j + 1;
    }
    let splat = declares_resource(&pf.resources, "splat_color") && declares_resource(&pf.resources, "splat_depth");
    let mut plans: Vec<PassPlan> = Vec::new();
    let mut i: usize = 0;
    while i < pf.passes.len()
        invariant
            i <= pf.passes@.len(),
            compiled@.len() == pf.passes@.len(),
            splat == splat_targets(pf.resources@),
            !has_cycle(pass_graph(pf.passes@)),
            all_formats_known(pf.resources@),
            order@ == kahn_order(pass_graph(pf.passes@)),
            valid_pass_order(pf.passes@, order@),
            forall|k: int| 0 <= k < pf.passes@.len() ==> (#[trigger] pf.passes@[k]).well_formed() && outputs_measurable(
                pf.passes@[k],
            ),
            plans@.len() == i,
            forall|k: int|
                0 <= k < i ==> plan_succeeds(
                    #[trigger] pf.passes@[k],
                    effective_slang(pf.passes@[k], compiled@[k]),
                    splat,
                ) && plan_outcome(
                    pf.passes@[k],
                    effective_slang(pf.passes@[k], compiled@[k]),
                    splat,
                    Ok::<PassPlan, PipelineError>(plans@[k]),
                ),
        decreases pf.passes@.len() - i,
    {
        let pass = &pf.passes[i];
        assert(pf.passes@[i as int].well_formed());
        let slang_output = compiled_output(pass, &compiled[i]);
        let ghost eff = effective_slang(pf.passes@[i as int], compiled@[i as int]);
        match plan_pass(pass, slang_output, splat) {
            Ok(plan) => {
                proof {
                    assert(plan_succeeds(pf.passes@[i as int], eff, splat));
                    assert(plan_outcome(pf.passes@[i as int], eff, splat, Ok::<PassPlan, PipelineError>(plan)));
                }
                plans.push(plan);
            },
            Err(e) => {
                proof {
                    assert(!plan_succeeds(pf.passes@[i as int], eff, splat));
                    assert(first_failing_pass(pf.passes@, compiled@, splat, i as int));
                    assert(plan_outcome(pf.passes@[i as int], eff, splat, Err::<PassPlan, PipelineError>(e)));
                }
                return Err(e);
            },
        }
        i = i + 1;
    }
    Ok(PipelinePlan { order, passes: plans, has_splat_targets: splat })
}

} // verus!
