//! Pass kinds, texture formats and resource sizes named in a pipeline file.

use vstd::prelude::*;

use crate::pipeline::def::PipelineError;
use crate::text::{
    concat3, is_ws, keep_from, keep_to, lemma_decimal_digits, lemma_digit_kept, lemma_parse_decimal_u32,
    lemma_strip_digits, parse_u32_chars, spec_decimal, spec_parse_u32, spec_strip, starts_with_chars, str_eq,
    strip_bounds, to_chars,
};

verus! {

// ---------------------------------------------------------------------------
// Pass kinds
// ---------------------------------------------------------------------------

/// How a pass draws.
#[derive(Debug, Clone, Copy, PartialEq, Eq, Structural)]
pub enum PassType {
    Rasterize,
    Fullscreen,
    Compute,
    Splat,
    Shadow,
}

/// The pass kind a pipeline file names with `s`.
pub open spec fn spec_pass_type(s: Seq<char>) -> Option<PassType> {
    if s == "rasterize"@ {
        Some(PassType::Rasterize)
    } else if s == "fullscreen"@ {
        Some(PassType::Fullscreen)
    } else if s == "compute"@ {
        Some(PassType::Compute)
    } else if s == "splat"@ {
        Some(PassType::Splat)
    } else if s == "shadow"@ {
        Some(PassType::Shadow)
    } else {
        None
    }
}

impl PassType {
    /// Reads a pass kind; `None` for an unknown name.
    pub fn from_str(s: &str) -> (r: Option<Self>)
        ensures
            r == spec_pass_type(s@),
    {
        if str_eq(s, "rasterize") {
            Some(Self::Rasterize)
        } else if str_eq(s, "fullscreen") {
            Some(Self::Fullscreen)
        } else if str_eq(s, "compute") {
            Some(Self::Compute)
        } else if str_eq(s, "splat") {
            Some(Self::Splat)
        } else if str_eq(s, "shadow") {
            Some(Self::Shadow)
        } else {
            None
        }
    }
}

// ---------------------------------------------------------------------------
// Texture formats
// ---------------------------------------------------------------------------

/// The texture formats a pipeline file can name.
#[derive(Debug, Clone, Copy, PartialEq, Eq, Structural)]
pub enum TextureFormat {
    Rgba8Unorm,
    Rgba16Float,
    Rg16Float,
    R16Float,
    Rgba32Float,
    Depth32Float,
    Depth24Plus,
}

/// The texture format a pipeline file names with `s`.
pub open spec fn spec_texture_format(s: Seq<char>) -> Option<TextureFormat> {
    if s == "rgba8"@ || s == "rgba8unorm"@ {
        Some(TextureFormat::Rgba8Unorm)
    } else if s == "rgb16f"@ || s == "rgba16f"@ {
        Some(TextureFormat::Rgba16Float)
    } else if s == "rg16f"@ {
        Some(TextureFormat::Rg16Float)
    } else if s == "r16f"@ {
        Some(TextureFormat::R16Float)
    } else if s == "rgba32f"@ {
        Some(TextureFormat::Rgba32Float)
    } else if s == "depth32f"@ {
        Some(TextureFormat::Depth32Float)
    } else if s == "depth24plus"@ {
        Some(TextureFormat::Depth24Plus)
    } else {
        None
    }
}

/// Reads a texture format name; an unknown name is an `InvalidFormat` error
/// that quotes it.
pub fn format_from_string(s: &str) -> (r: Result<TextureFormat, PipelineError>)
    ensures
        match spec_texture_format(s@) {
            Some(f) => r == Ok::<TextureFormat, PipelineError>(f),
            None => r matches Err(PipelineError::InvalidFormat(msg)) && msg@
                == "Unknown texture format: '"@ + s@ + "'"@,
        },
{
    if str_eq(s, "rgba8") || str_eq(s, "rgba8unorm") {
        Ok(TextureFormat::Rgba8Unorm)
    } else if str_eq(s, "rgb16f") || str_eq(s, "rgba16f") {
        Ok(TextureFormat::Rgba16Float)
    } else if str_eq(s, "rg16f") {
        Ok(TextureFormat::Rg16Float)
    } else if str_eq(s, "r16f") {
        Ok(TextureFormat::R16Float)
    } else if str_eq(s, "rgba32f") {
        Ok(TextureFormat::Rgba32Float)
    } else if str_eq(s, "depth32f") {
        Ok(TextureFormat::Depth32Float)
    } else if str_eq(s, "depth24plus") {
        Ok(TextureFormat::Depth24Plus)
    } else {
        Err(PipelineError::InvalidFormat(concat3("Unknown texture format: '", s, "'")))
    }
}

// ---------------------------------------------------------------------------
// Resource sizes
// ---------------------------------------------------------------------------

/// The size of a pipeline texture.
#[derive(Debug, Clone, Copy, PartialEq, Eq, Structural)]
pub enum ResourceSize {
    /// The viewport size.
    Viewport,
    /// The viewport divided by N (e.g. `ViewportDiv(2)` is half resolution).
    ViewportDiv(u32),
    /// A fixed width and height.
    Fixed(u32, u32),
}

/// `"viewport/N"` with `N` a positive integer (blanks around `N` allowed).
pub open spec fn spec_viewport_div(s: Seq<char>) -> Option<u32> {
    let p = "viewport/"@;
    if p.len() <= s.len() && s.subrange(0, p.len() as int) == p {
        match spec_parse_u32(spec_strip(s.subrange(p.len() as int, s.len() as int), false)) {
            Some(d) => if d > 0 {
                Some(d)
            } else {
                None
            },
            None => None,
        }
    } else {
        None
    }
}

/// `c` is the one comma of `t`.
pub open spec fn only_comma_at(t: Seq<char>, c: int) -> bool {
    &&& 0 <= c < t.len()
    &&& t[c] == ','
    &&& forall|i: int| 0 <= i < t.len() && i != c ==> #[trigger] t[i] != ','
}

/// `"[w, h]"` or `"w,h"`: brackets stripped from both ends, exactly one comma,
/// and a `u32` (blanks around it allowed) on each side.
pub open spec fn spec_fixed_size(s: Seq<char>) -> Option<(u32, u32)> {
    let t = spec_strip(s, true);
    if exists|c: int| only_comma_at(t, c) {
        let c = choose|c: int| only_comma_at(t, c);
        match (
            spec_parse_u32(spec_strip(t.subrange(0, c), false)),
            spec_parse_u32(spec_strip(t.subrange(c + 1, t.len() as int), false)),
        ) {
            (Some(w), Some(h)) => Some((w, h)),
            _ => None,
        }
    } else {
        None
    }
}

/// The size a resource's size string stands for; anything unreadable is the
/// viewport size.
pub open spec fn spec_resource_size(s: Seq<char>) -> ResourceSize {
    if s == "viewport"@ {
        ResourceSize::Viewport
    } else if spec_viewport_div(s) is Some {
        ResourceSize::ViewportDiv(spec_viewport_div(s)->0)
    } else {
        match spec_fixed_size(s) {
            Some((w, h)) => ResourceSize::Fixed(w, h),
            None => ResourceSize::Viewport,
        }
    }
}

/// Parses `v[from..to]` as a `u32` after trimming blanks.
fn parse_trimmed_u32(v: &Vec<char>, from: usize, to: usize) -> (r: Option<u32>)
    requires
        from <= to <= v@.len(),
    ensures
        r == spec_parse_u32(spec_strip(v@.subrange(from as int, to as int), false)),
{
    let (a, b) = strip_bounds(v, from, to, false);
    proof {
        let s = v@.subrange(from as int, to as int);
        assert(spec_strip(s, false) =~= v@.subrange(a as int, b as int));
    }
    parse_u32_chars(v, a, b)
}

fn viewport_div(v: &Vec<char>) -> (r: Option<u32>)
    ensures
        r == spec_viewport_div(v@),
{
    let prefix = to_chars("viewport/");
    if starts_with_chars(v, &prefix) {
        match parse_trimmed_u32(v, prefix.len(), v.len()) {
            Some(d) => if d > 0 {
                Some(d)
            } else {
                None
            },
            None => None,
        }
    } else {
        None
    }
}

fn fixed_size(v: &Vec<char>) -> (r: Option<(u32, u32)>)
    ensures
        r == spec_fixed_size(v@),
{
    let (a, b) = strip_bounds(v, 0, v.len(), true);
    let ghost t = spec_strip(v@, true);
    proof {
        assert(v@.subrange(0, v@.len() as int) =~= v@);
        assert(t =~= v@.subrange(a as int, b as int));
    }
    // find the first comma, then make sure there is no other
    let mut c = a;
    while c < b && v[c] != ','
        invariant
            a <= c <= b <= v@.len(),
            forall|i: int| a <= i < c ==> v@[i] != ',',
        decreases b - c,
    {
        c = c + 1;
    }
    if c == b {
        proof {
            assert forall|k: int| !only_comma_at(t, k) by {
                if 0 <= k < t.len() {
                    assert(t[k] == v@[a + k]);
                }
            }
        }
        return None;
    }
    let mut d = c + 1;
    while d < b && v[d] != ','
        invariant
            a <= c < d <= b <= v@.len(),
            forall|i: int| c < i < d ==> v@[i] != ',',
        decreases b - d,
    {
        d = d + 1;
    }
    if d < b {
        proof {
            assert forall|k: int| !only_comma_at(t, k) by {
                if only_comma_at(t, k) {
                    assert(t[c - a] == ',');
                    assert(t[d - a] == ',');
                }
            }
        }
        return None;
    }
    proof {
        assert(only_comma_at(t, c - a)) by {
            assert forall|i: int| 0 <= i < t.len() && i != c - a implies #[trigger] t[i] != ',' by {
                assert(t[i] == v@[a + i]);
            }
        }
        let k = choose|k: int| only_comma_at(t, k);
        assert(k == c - a) by {
            if k != c - a {
                assert(t[c - a] == ',');
            }
        }
        assert(t.subrange(0, c - a) =~= v@.subrange(a as int, c as int));
        assert(t.subrange(c - a + 1, t.len() as int) =~= v@.subrange(c + 1, b as int));
    }
    let w = parse_trimmed_u32(v, a, c);
    let h = parse_trimmed_u32(v, c + 1, b);
    match (w, h) {
        (Some(w), Some(h)) => Some((w, h)),
        _ => None,
    }
}

/// Parses a size string: `"viewport"`, `"viewport/N"`, or `"[width, height]"`.
/// Anything else means the viewport size.
pub fn parse_resource_size(s: &str) -> (r: ResourceSize)
    ensures
        r == spec_resource_size(s@),
{
    if str_eq(s, "viewport") {
        return ResourceSize::Viewport;
    }
    let v = to_chars(s);
    match viewport_div(&v) {
        Some(d) => {
            return ResourceSize::ViewportDiv(d);
        },
        None => {},
    }
    match fixed_size(&v) {
        Some((w, h)) => ResourceSize::Fixed(w, h),
        None => ResourceSize::Viewport,
    }
}

/// Width and height of a resource of the given size on a viewport of
/// `viewport_width` by `viewport_height`, before the texture's minimum of 1.
pub open spec fn spec_extent(size: ResourceSize, viewport_width: u32, viewport_height: u32) -> (
    u32,
    u32,
) {
    match size {
        ResourceSize::Viewport => (viewport_width, viewport_height),
        ResourceSize::ViewportDiv(d) => (
            (viewport_width / d) as u32,
            (viewport_height / d) as u32,
        ),
        ResourceSize::Fixed(w, h) => (w, h),
    }
}

/// A size holds no zero divisor.
pub open spec fn size_well_formed(size: ResourceSize) -> bool {
    size matches ResourceSize::ViewportDiv(d) ==> d > 0
}

/// Width and height of a resource on a given viewport.
pub fn resource_extent(size: ResourceSize, viewport_width: u32, viewport_height: u32) -> (r: (
    u32,
    u32,
))
    requires
        size_well_formed(size),
    ensures
        r == spec_extent(size, viewport_width, viewport_height),
{
    match size {
        ResourceSize::Viewport => (viewport_width, viewport_height),
        ResourceSize::ViewportDiv(d) => (viewport_width / d, viewport_height / d),
        ResourceSize::Fixed(w, h) => (w, h),
    }
}

/// The texture extent allocated for a resource: its size, at least 1 by 1.
pub fn texture_extent(size: ResourceSize, viewport_width: u32, viewport_height: u32) -> (r: (
    u32,
    u32,
))
    requires
        size_well_formed(size),
    ensures
        r.0 == if spec_extent(size, viewport_width, viewport_height).0 == 0 {
            1
        } else {
            spec_extent(size, viewport_width, viewport_height).0
        },
        r.1 == if spec_extent(size, viewport_width, viewport_height).1 == 0 {
            1
        } else {
            spec_extent(size, viewport_width, viewport_height).1
        },
{
    let (w, h) = resource_extent(size, viewport_width, viewport_height);
    (if w == 0 {
        1
    } else {
        w
    }, if h == 0 {
        1
    } else {
        h
    })
}

/// The extent a resource takes after the window is resized; fixed-size
/// resources keep their textures (`None`).
pub fn resized_extent(size: ResourceSize, new_width: u32, new_height: u32) -> (r: Option<(u32, u32)>)
    requires
        size_well_formed(size),
    ensures
        match size {
            ResourceSize::Fixed(_, _) => r is None,
            _ => r == Some(spec_extent(size, new_width, new_height)),
        },
{
    match size {
        ResourceSize::Fixed(_, _) => None,
        _ => Some(resource_extent(size, new_width, new_height)),
    }
}

/// Most point lights the lighting pass takes.
pub const MAX_LIGHTS: usize = 32;

/// Parsing never yields a zero divisor, so every parsed size can be allocated.
pub proof fn lemma_parsed_size_well_formed(s: Seq<char>)
    ensures
        size_well_formed(spec_resource_size(s)),
{
}

/// `viewport/N`, with `N` a positive `u32` written in decimal, reads back as
/// the viewport divided by `N`.
pub proof fn lemma_viewport_div_round_trip(d: u32)
    requires
        d > 0,
    ensures
        spec_resource_size("viewport/"@ + spec_decimal(d as nat)) == ResourceSize::ViewportDiv(d),
{
    reveal_strlit("viewport/");
    reveal_strlit("viewport");
    let digits = spec_decimal(d as nat);
    let s = "viewport/"@ + digits;
    lemma_decimal_digits(d as nat);
    lemma_parse_decimal_u32(d);
    lemma_strip_digits(digits, false);
    assert(s.subrange(0, 9) =~= "viewport/"@);
    assert(s.subrange(9, s.len() as int) =~= digits);
    assert(s != "viewport"@) by {
        assert(s.len() != "viewport"@.len());
    }
}

/// `[W, H]`, with `W` and `H` `u32`s written in decimal, reads back as the
/// fixed size `W` by `H`.
pub proof fn lemma_fixed_size_round_trip(w: u32, h: u32)
    ensures
        spec_resource_size("["@ + spec_decimal(w as nat) + ", "@ + spec_decimal(h as nat) + "]"@)
            == ResourceSize::Fixed(w, h),
{
    reveal_strlit("[");
    reveal_strlit(", ");
    reveal_strlit("]");
    reveal_strlit("viewport/");
    reveal_strlit("viewport");
    let dw = spec_decimal(w as nat);
    let dh = spec_decimal(h as nat);
    let s = "["@ + dw + ", "@ + dh + "]"@;
    lemma_decimal_digits(w as nat);
    lemma_decimal_digits(h as nat);
    lemma_parse_decimal_u32(w);
    lemma_parse_decimal_u32(h);
    lemma_strip_digits(dw, false);
    lemma_strip_digits(dh, false);
    lemma_digit_kept(dw[0]);
    lemma_digit_kept(dh[dh.len() - 1]);
    // the brackets go
    let n = s.len() as int;
    assert(s[0] == '[');
    assert(s[1] == dw[0]);
    assert(s[n - 1] == ']');
    assert(s[n - 2] == dh[dh.len() - 1]);
    assert(keep_from(s, 1, true) == 1);
    assert(keep_from(s, 0, true) == 1);
    assert(keep_to(s, 1, n - 1, true) == n - 1);
    assert(keep_to(s, 1, n, true) == n - 1);
    let t = spec_strip(s, true);
    assert(t =~= dw + ", "@ + dh);
    // one comma, right after the width
    let c = dw.len() as int;
    assert forall|i: int| 0 <= i < t.len() && i != c implies #[trigger] t[i] != ',' by {
        if i < c {
            assert(t[i] == dw[i]);
        } else if i == c + 1 {
            assert(t[i] == ' ');
        } else {
            assert(t[i] == dh[i - c - 2]);
        }
    }
    assert(only_comma_at(t, c));
    assert forall|c2: int| only_comma_at(t, c2) implies c2 == c by {
        if c2 != c {
            assert(t[c] == ',');
        }
    }
    let cc = choose|c2: int| only_comma_at(t, c2);
    assert(cc == c);
    assert(t.subrange(0, c) =~= dw);
    let right = t.subrange(c + 1, t.len() as int);
    assert(right =~= " "@ + dh) by {
        reveal_strlit(" ");
    }
    reveal_strlit(" ");
    assert(right[0] == ' ');
    assert(is_ws(' '));
    assert(right[1] == dh[0]);
    lemma_digit_kept(dh[0]);
    assert(keep_from(right, 1, false) == 1);
    assert(keep_from(right, 0, false) == 1);
    assert(right[right.len() - 1] == dh[dh.len() - 1]);
    assert(keep_to(right, 1, right.len() as int, false) == right.len());
    assert(spec_strip(right, false) =~= dh);
    assert(spec_fixed_size(s) == Some((w, h)));
    assert(s != "viewport"@) by {
        assert(s[0] != "viewport"@[0]);
    }
    assert(spec_viewport_div(s) is None) by {
        if 9 <= s.len() {
            assert(s.subrange(0, 9)[0] != "viewport/"@[0]);
        }
    }
}

/// `s` is the name of pass kind `t` in a pipeline file.
pub open spec fn names_pass_type(s: Seq<char>, t: PassType) -> bool {
    match t {
        PassType::Rasterize => s == "rasterize"@,
        PassType::Fullscreen => s == "fullscreen"@,
        PassType::Compute => s == "compute"@,
        PassType::Splat => s == "splat"@,
        PassType::Shadow => s == "shadow"@,
    }
}

/// A pass kind name is read as the kind it names, never as another kind.
pub proof fn lemma_names_pass_type_read(s: Seq<char>)
    ensures
        spec_pass_type(s) matches Some(t) ==> names_pass_type(s, t),
{
}

/// Every pass kind is read from its name.
pub proof fn lemma_pass_type_read_from_its_name(s: Seq<char>, t: PassType)
    requires
        names_pass_type(s, t),
    ensures
        spec_pass_type(s) == Some(t),
{
    reveal_strlit("rasterize");
    reveal_strlit("fullscreen");
    reveal_strlit("compute");
    reveal_strlit("splat");
    reveal_strlit("shadow");
    assert("rasterize"@.len() == 9);
    assert("fullscreen"@.len() == 10);
    assert("compute"@.len() == 7);
    assert("splat"@.len() == 5);
    assert("shadow"@.len() == 6);
    match t {
        _ => {},
    }
}

/// `s` is a name of texture format `t` in a pipeline file.
pub open spec fn names_texture_format(s: Seq<char>, t: TextureFormat) -> bool {
    match t {
        TextureFormat::Rgba8Unorm => s == "rgba8"@ || s == "rgba8unorm"@,
        TextureFormat::Rgba16Float => s == "rgb16f"@ || s == "rgba16f"@,
        TextureFormat::Rg16Float => s == "rg16f"@,
        TextureFormat::R16Float => s == "r16f"@,
        TextureFormat::Rgba32Float => s == "rgba32f"@,
        TextureFormat::Depth32Float => s == "depth32f"@,
        TextureFormat::Depth24Plus => s == "depth24plus"@,
    }
}

/// A format name is read as the format it names, never as another format.
pub proof fn lemma_names_texture_format_read(s: Seq<char>)
    ensures
        spec_texture_format(s) matches Some(t) ==> names_texture_format(s, t),
{
}

/// Every name of a texture format is read as that format.
pub proof fn lemma_texture_format_read_from_its_name(s: Seq<char>, t: TextureFormat)
    requires
        names_texture_format(s, t),
    ensures
        spec_texture_format(s) == Some(t),
{
    reveal_strlit("rgba8");
    reveal_strlit("rgba8unorm");
    reveal_strlit("rgb16f");
    reveal_strlit("rgba16f");
    reveal_strlit("rg16f");
    reveal_strlit("r16f");
    reveal_strlit("rgba32f");
    reveal_strlit("depth32f");
    reveal_strlit("depth24plus");
    assert("rgba8"@.len() == 5);
    assert("rgba8unorm"@.len() == 10);
    assert("rgb16f"@.len() == 6);
    assert("rgba16f"@.len() == 7);
    assert("rg16f"@.len() == 5);
    assert("r16f"@.len() == 4);
    assert("rgba32f"@.len() == 7);
    assert("depth32f"@.len() == 8);
    assert("depth24plus"@.len() == 11);
    match t {
        TextureFormat::Rg16Float => {
            if s == "rg16f"@ {
                assert("rg16f"@[2] != "rgba8"@[2]);
            }
        },
        TextureFormat::Rgba32Float => {
            if s == "rgba32f"@ {
                assert("rgba32f"@[4] != "rgba16f"@[4]);
            }
        },
        _ => {},
    }
}

} // verus!
