//! Exporting scene geometry as glTF binary (GLB): the container framing, the
//! binary buffer layout, and the triangle indices of the procedural meshes.
//!
//! Vertex coordinates are floating point and are turned into bytes by the
//! caller; everything about where those bytes go is decided here.

use vstd::prelude::*;

use crate::text::{starts_with_chars, str_eq, to_chars};

verus! {

// ---------------------------------------------------------------------------
// Little-endian integers
// ---------------------------------------------------------------------------

/// The four little-endian bytes of `x`.
pub open spec fn le_u32(x: u32) -> Seq<u8> {
    seq![
        (x % 256) as u8,
        ((x / 256) % 256) as u8,
        ((x / 65536) % 256) as u8,
        ((x / 16777216) % 256) as u8,
    ]
}

/// The little-endian bytes of each value in turn.
pub open spec fn le_u32_all(s: Seq<u32>) -> Seq<u8>
    decreases s.len(),
{
    if s.len() == 0 {
        Seq::empty()
    } else {
        le_u32_all(s.drop_last()) + le_u32(s.last())
    }
}

/// The low 32 bits of `n`, as a cast to `u32` keeps them.
pub open spec fn low32(n: nat) -> u32 {
    (n % 0x1_0000_0000) as u32
}

fn push_u32_le(out: &mut Vec<u8>, x: u32)
    ensures
        final(out)@ == old(out)@ + le_u32(x),
{
    out.push((x % 256) as u8);
    out.push(((x / 256) % 256) as u8);
    out.push(((x / 65536) % 256) as u8);
    out.push(((x / 16777216) % 256) as u8);
    proof {
        assert(out@ =~= old(out)@ + le_u32(x));
    }
}

fn push_bytes(out: &mut Vec<u8>, data: &Vec<u8>)
    ensures
        final(out)@ == old(out)@ + data@,
{
    let mut i: usize = 0;
    while i < data.len()
        invariant
            i <= data@.len(),
            out@ == old(out)@ + data@.take(i as int),
        decreases data@.len() - i,
    {
        out.push(data[i]);
        proof {
            assert(data@.take(i + 1) =~= data@.take(i as int).push(data@[i as int]));
            assert(out@ =~= old(out)@ + data@.take(i + 1));
        }
        i = i + 1;
    }
    proof {
        assert(data@.take(data@.len() as int) =~= data@);
    }
}

fn push_fill(out: &mut Vec<u8>, byte: u8, count: usize)
    ensures
        final(out)@ == old(out)@ + Seq::new(count as nat, |k: int| byte),
{
    let mut i: usize = 0;
    while i < count
        invariant
            i <= count,
            out@ == old(out)@ + Seq::new(i as nat, |k: int| byte),
        decreases count - i,
    {
        out.push(byte);
        proof {
            assert(out@ =~= old(out)@ + Seq::new((i + 1) as nat, |k: int| byte));
        }
        i = i + 1;
    }
}

/// The indices as little-endian 32-bit values, in order.
pub fn encode_indices(indices: &Vec<u32>) -> (r: Vec<u8>)
    ensures
        r@ == le_u32_all(indices@),
{
    let mut out: Vec<u8> = Vec::new();
    let mut i: usize = 0;
    while i < indices.len()
        invariant
            i <= indices@.len(),
            out@ == le_u32_all(indices@.take(i as int)),
        decreases indices@.len() - i,
    {
        push_u32_le(&mut out, indices[i]);
        proof {
            let t = indices@.take(i + 1);
            assert(t.drop_last() =~= indices@.take(i as int));
            assert(t.last() == indices@[i as int]);
        }
        i = i + 1;
    }
    proof {
        assert(indices@.take(indices@.len() as int) =~= indices@);
    }
    out
}

// ---------------------------------------------------------------------------
// The binary buffer
// ---------------------------------------------------------------------------

/// Sizes of the three regions of the binary buffer: positions and normals
/// (three 32-bit floats per vertex) and indices (one 32-bit value each).
#[derive(Debug, Clone, Copy)]
pub struct GlbLayout {
    pub position_bytes: usize,
    pub normal_bytes: usize,
    pub index_bytes: usize,
    pub buffer_size: usize,
}

/// The buffer layout for `vertex_count` vertices and `index_count` indices.
pub fn glb_layout(vertex_count: usize, index_count: usize) -> (l: GlbLayout)
    requires
        vertex_count * 24 + index_count * 4 <= usize::MAX,
    ensures
        l.position_bytes == vertex_count * 12,
        l.normal_bytes == vertex_count * 12,
        l.index_bytes == index_count * 4,
        l.buffer_size == l.position_bytes + l.normal_bytes + l.index_bytes,
{
    let position_bytes = vertex_count * 12;
    let normal_bytes = vertex_count * 12;
    let index_bytes = index_count * 4;
    GlbLayout { position_bytes, normal_bytes, index_bytes, buffer_size: position_bytes + normal_bytes + index_bytes }
}

/// The binary buffer: the position bytes, then the normal bytes, then the
/// indices.
pub fn glb_binary_buffer(position_bytes: &Vec<u8>, normal_bytes: &Vec<u8>, indices: &Vec<u32>) -> (r: Vec<u8>)
    ensures
        r@ == position_bytes@ + normal_bytes@ + le_u32_all(indices@),
{
    let mut out: Vec<u8> = Vec::new();
    push_bytes(&mut out, position_bytes);
    push_bytes(&mut out, normal_bytes);
    let idx = encode_indices(indices);
    push_bytes(&mut out, &idx);
    proof {
        assert(Seq::<u8>::empty() + position_bytes@ =~= position_bytes@);
    }
    out
}

// ---------------------------------------------------------------------------
// GLB container
// ---------------------------------------------------------------------------

/// `n` rounded up to a multiple of four.
pub open spec fn padded4(n: nat) -> nat {
    ((n + 3) / 4) * 4
}

/// The magic bytes `glTF`.
pub open spec fn glb_magic() -> Seq<u8> {
    seq![0x67u8, 0x6Cu8, 0x54u8, 0x46u8]
}

/// The chunk type of the JSON chunk (`JSON`).
pub const JSON_CHUNK_TYPE: u32 = 0x4E4F534Au32;

/// The chunk type of the binary chunk (`BIN\0`).
pub const BIN_CHUNK_TYPE: u32 = 0x004E4942u32;

/// The container version written.
pub const GLB_VERSION: u32 = 2u32;

/// The GLB file: the 12-byte header (magic, version, total length), the
/// JSON chunk padded with spaces to a multiple of four, and the binary chunk
/// padded with zeros to a multiple of four. Each chunk starts with its
/// length and type. Lengths are written modulo 2^32.
#[verifier::opaque]
pub open spec fn spec_glb(json: Seq<u8>, bin: Seq<u8>) -> Seq<u8> {
    let pj = padded4(json.len());
    let pb = padded4(bin.len());
    let total = 12 + 8 + pj + 8 + pb;
    glb_magic() + le_u32(GLB_VERSION) + le_u32(low32(total)) + le_u32(low32(pj)) + le_u32(JSON_CHUNK_TYPE)
        + json + Seq::new((pj - json.len()) as nat, |k: int| 0x20u8) + le_u32(low32(pb)) + le_u32(
        BIN_CHUNK_TYPE,
    ) + bin + Seq::new((pb - bin.len()) as nat, |k: int| 0u8)
}

fn low32_of(n: usize) -> (r: u32)
    ensures
        r == low32(n as nat),
{
    ((n as u64) % 0x1_0000_0000u64) as u32
}

fn padded4_of(n: usize) -> (r: usize)
    requires
        n + 3 <= usize::MAX,
    ensures
        r == padded4(n as nat),
        n <= r <= n + 3,
{
    (n + 3) / 4 * 4
}

/// Frames a glTF JSON document and a binary buffer as a GLB file.
pub fn frame_glb(json: &Vec<u8>, bin: &Vec<u8>) -> (glb: Vec<u8>)
    requires
        json@.len() + bin@.len() + 64 <= usize::MAX,
    ensures
        glb@ == spec_glb(json@, bin@),
{
    let pj = padded4_of(json.len());
    let pb = padded4_of(bin.len());
    let total = 12 + 8 + pj + 8 + pb;
    let mut glb: Vec<u8> = Vec::new();
    glb.push(0x67u8);
    glb.push(0x6Cu8);
    glb.push(0x54u8);
    glb.push(0x46u8);
    proof {
        assert(glb@ =~= glb_magic());
    }
    push_u32_le(&mut glb, GLB_VERSION);
    push_u32_le(&mut glb, low32_of(total));
    push_u32_le(&mut glb, low32_of(pj));
    push_u32_le(&mut glb, JSON_CHUNK_TYPE);
    push_bytes(&mut glb, json);
    push_fill(&mut glb, 0x20u8, pj - json.len());
    push_u32_le(&mut glb, low32_of(pb));
    push_u32_le(&mut glb, BIN_CHUNK_TYPE);
    push_bytes(&mut glb, bin);
    push_fill(&mut glb, 0u8, pb - bin.len());
    proof {
        reveal(spec_glb);
    }
    glb
}

/// The value of the four little-endian bytes of `s` at `at`.
pub open spec fn read_le_u32(s: Seq<u8>, at: int) -> int {
    s[at] + 256 * s[at + 1] + 65536 * s[at + 2] + 16777216 * s[at + 3]
}

/// Reading back the bytes written for a value gives the value.
pub proof fn lemma_le_u32_round_trip(x: u32)
    ensures
        read_le_u32(le_u32(x), 0) == x,
{
    let b = le_u32(x);
    assert(b[0] == x % 256);
    assert(b[1] == (x / 256) % 256);
    assert(b[2] == (x / 65536) % 256);
    assert(b[3] == (x / 16777216) % 256);
    assert((x % 256) + 256 * ((x / 256) % 256) + 65536 * ((x / 65536) % 256) + 16777216 * ((x / 16777216) % 256)
        == x) by (nonlinear_arith);
}

proof fn lemma_padded4(n: nat)
    ensures
        n <= padded4(n) < n + 4,
        padded4(n) % 4 == 0,
{
    assert(n <= ((n + 3) / 4) * 4 < n + 4) by (nonlinear_arith);
    assert((((n + 3) / 4) * 4) % 4 == 0) by (nonlinear_arith);
}

/// Where the fields of a GLB file stand: the total length at 8, the JSON
/// chunk's length at 12, the binary chunk's length right after the padded
/// JSON.
#[verifier::spinoff_prover]
#[verifier::rlimit(30)]
proof fn lemma_glb_fields(json: Seq<u8>, bin: Seq<u8>)
    ensures
        ({
            let pj = padded4(json.len()) as int;
            let pb = padded4(bin.len()) as int;
            let g = spec_glb(json, bin);
            let lt = le_u32(low32((12 + 8 + pj + 8 + pb) as nat));
            let lj = le_u32(low32(pj as nat));
            let lb = le_u32(low32(pb as nat));
            &&& g.len() == 12 + 8 + pj + 8 + pb
            &&& g[8] == lt[0] && g[9] == lt[1] && g[10] == lt[2] && g[11] == lt[3]
            &&& g[12] == lj[0] && g[13] == lj[1] && g[14] == lj[2] && g[15] == lj[3]
            &&& g[20 + pj] == lb[0] && g[21 + pj] == lb[1] && g[22 + pj] == lb[2] && g[23 + pj] == lb[3]
        }),
{
    reveal(spec_glb);
    lemma_padded4(json.len());
    lemma_padded4(bin.len());
    let pj = padded4(json.len()) as int;
    let pb = padded4(bin.len()) as int;
    let total = 12 + 8 + pj + 8 + pb;
    let lt = le_u32(low32(total as nat));
    let lj = le_u32(low32(pj as nat));
    let lb = le_u32(low32(pb as nat));
    let padj = Seq::new((pj - json.len()) as nat, |k: int| 0x20u8);
    let padb = Seq::new((pb - bin.len()) as nat, |k: int| 0u8);
    let h = glb_magic() + le_u32(GLB_VERSION) + lt;
    let jc = h + lj + le_u32(JSON_CHUNK_TYPE) + json + padj;
    let g = spec_glb(json, bin);
    assert(g == jc + lb + le_u32(BIN_CHUNK_TYPE) + bin + padb);
    assert(h.len() == 12);
    assert(jc.len() == 20 + pj);
    assert(h[8] == lt[0] && h[9] == lt[1] && h[10] == lt[2] && h[11] == lt[3]);
    assert((h + lj)[12] == lj[0] && (h + lj)[13] == lj[1] && (h + lj)[14] == lj[2] && (h + lj)[15] == lj[3]);
    assert(jc[8] == lt[0] && jc[9] == lt[1] && jc[10] == lt[2] && jc[11] == lt[3]);
    assert(jc[12] == lj[0] && jc[13] == lj[1] && jc[14] == lj[2] && jc[15] == lj[3]);
    let k = jc + lb;
    assert(k[20 + pj] == lb[0] && k[21 + pj] == lb[1] && k[22 + pj] == lb[2] && k[23 + pj] == lb[3]);
    assert(k[8] == lt[0] && k[12] == lj[0]);
}

/// A GLB file under 4 GiB states its own length in its header, and each
/// chunk's length is that of its padded contents, a multiple of four.
#[verifier::spinoff_prover]
pub proof fn lemma_glb_lengths(json: Seq<u8>, bin: Seq<u8>)
    requires
        12 + 8 + padded4(json.len()) + 8 + padded4(bin.len()) < 0x1_0000_0000,
    ensures
        spec_glb(json, bin).len() == 12 + 8 + padded4(json.len()) + 8 + padded4(bin.len()),
        read_le_u32(spec_glb(json, bin), 8) == spec_glb(json, bin).len(),
        read_le_u32(spec_glb(json, bin), 12) == padded4(json.len()),
        read_le_u32(spec_glb(json, bin), 20 + padded4(json.len()) as int) == padded4(bin.len()),
        padded4(json.len()) % 4 == 0,
        padded4(bin.len()) % 4 == 0,
        json.len() <= padded4(json.len()) < json.len() + 4,
{
    lemma_padded4(json.len());
    lemma_padded4(bin.len());
    lemma_glb_fields(json, bin);
    let pj = padded4(json.len());
    let pb = padded4(bin.len());
    let total = 12 + 8 + pj + 8 + pb;
    assert(low32(total) == total);
    assert(low32(pj) == pj);
    assert(low32(pb) == pb);
    lemma_le_u32_round_trip(low32(total));
    lemma_le_u32_round_trip(low32(pj));
    lemma_le_u32_round_trip(low32(pb));
}

// ---------------------------------------------------------------------------
// Procedural meshes
// ---------------------------------------------------------------------------

/// The procedural meshes a scene can name.
#[derive(Debug, Clone, Copy, PartialEq, Eq, Structural)]
pub enum ProceduralMesh {
    Cube,
    /// A UV sphere with this many stacks and slices.
    Sphere { stacks: u32, slices: u32 },
}

/// A mesh name of the form `procedural:...`.
pub open spec fn is_procedural_name(mesh: Seq<char>) -> bool {
    mesh.len() >= "procedural:"@.len() && mesh.subrange(0, "procedural:"@.len() as int) == "procedural:"@
}

/// Whether the mesh is generated rather than read from a file.
pub fn is_procedural(mesh: &str) -> (r: bool)
    ensures
        r == is_procedural_name(mesh@),
{
    let v = to_chars(mesh);
    let p = to_chars("procedural:");
    starts_with_chars(&v, &p)
}

/// Which procedural mesh a name stands for: the sphere for
/// `procedural:sphere`, sixteen stacks by sixteen slices; the cube for
/// `procedural:cube` and for any other name.
pub open spec fn spec_procedural_mesh(mesh: Seq<char>) -> ProceduralMesh {
    if mesh == "procedural:sphere"@ {
        ProceduralMesh::Sphere { stacks: 16, slices: 16 }
    } else {
        ProceduralMesh::Cube
    }
}

/// The procedural mesh a name stands for.
pub fn procedural_mesh(mesh: &str) -> (r: ProceduralMesh)
    ensures
        r == spec_procedural_mesh(mesh@),
{
    if str_eq(mesh, "procedural:sphere") {
        ProceduralMesh::Sphere { stacks: 16, slices: 16 }
    } else {
        ProceduralMesh::Cube
    }
}

/// The corner of the two triangles `(0, 1, 2)` and `(0, 2, 3)` of a quad that
/// the `k`-th index of the quad refers to.
pub open spec fn quad_corner(k: int) -> int {
    if k == 0 {
        0
    } else if k == 1 {
        1
    } else if k == 2 {
        2
    } else if k == 3 {
        0
    } else if k == 4 {
        2
    } else {
        3
    }
}

/// The unit cube has four vertices per face, six faces.
pub open spec fn cube_vertex_count() -> nat {
    24
}

/// The cube's indices: two triangles per face, over the face's four
/// vertices.
pub fn cube_indices() -> (r: Vec<u32>)
    ensures
        r@.len() == 36,
        forall|f: int, k: int| 0 <= f < 6 && 0 <= k < 6 ==> #[trigger] r@[6 * f + k] == 4 * f + quad_corner(k),
        forall|n: int| 0 <= n < r@.len() ==> #[trigger] r@[n] < cube_vertex_count(),
{
    let mut out: Vec<u32> = Vec::new();
    let mut f: u32 = 0;
    while f < 6
        invariant
            f <= 6,
            out@.len() == 6 * f,
            forall|g: int, k: int| 0 <= g < f && 0 <= k < 6 ==> #[trigger] out@[6 * g + k] == 4 * g + quad_corner(k),
            forall|n: int| 0 <= n < out@.len() ==> #[trigger] out@[n] < 4 * f,
        decreases 6 - f,
    {
        let base = 4 * f;
        let ghost before = out@;
        out.push(base);
        out.push(base + 1);
        out.push(base + 2);
        out.push(base);
        out.push(base + 2);
        out.push(base + 3);
        proof {
            assert forall|g: int, k: int| 0 <= g < f + 1 && 0 <= k < 6 implies #[trigger] out@[6 * g + k] == 4 * g
                + quad_corner(k) by {
                if g < f {
                    assert(out@[6 * g + k] == before[6 * g + k]);
                }
            }
        }
        f = f + 1;
    }
    out
}

/// The `k`-th index of the quad between stack `i` and `i + 1` and slice `j`
/// and `j + 1` of a sphere with `slices` slices: with `a` the vertex at
/// `(i, j)` and `b` the one below it, the triangles `(a, b, a + 1)` and
/// `(b, b + 1, a + 1)`.
pub open spec fn sphere_corner(i: int, j: int, k: int, slices: int) -> int {
    let a = i * (slices + 1) + j;
    let b = a + slices + 1;
    if k == 0 {
        a
    } else if k == 1 {
        b
    } else if k == 2 {
        a + 1
    } else if k == 3 {
        b
    } else if k == 4 {
        b + 1
    } else {
        a + 1
    }
}

/// A sphere has `slices + 1` vertices on each of its `stacks + 1` rings.
pub open spec fn sphere_vertex_count(stacks: nat, slices: nat) -> nat {
    (stacks + 1) * (slices + 1)
}

proof fn lemma_sphere_corner_bound(i: int, j: int, k: int, stacks: int, slices: int)
    requires
        0 <= i < stacks,
        0 <= j < slices,
        0 <= k < 6,
    ensures
        0 <= sphere_corner(i, j, k, slices) < (stacks + 1) * (slices + 1),
{
    assert(0 <= i * (slices + 1)) by (nonlinear_arith)
        requires
            0 <= i,
            0 <= slices,
    ;
    assert(i * (slices + 1) + 2 * slices + 2 <= (stacks + 1) * (slices + 1)) by (nonlinear_arith)
        requires
            0 <= i < stacks,
            0 <= slices,
    ;
}

/// The indices of a UV sphere: quads between neighbouring rings, stack by
/// stack and slice by slice, two triangles each.
pub fn sphere_indices(stacks: u32, slices: u32) -> (r: Vec<u32>)
    requires
        (stacks + 1) * (slices + 1) <= 0x1_0000_0000,
        6 * stacks * slices <= usize::MAX,
    ensures
        r@.len() == 6 * stacks * slices,
        forall|i: int, j: int, k: int|
            0 <= i < stacks && 0 <= j < slices && 0 <= k < 6 ==> #[trigger] r@[6 * (i * slices + j) + k]
                == sphere_corner(i, j, k, slices as int),
        forall|n: int| 0 <= n < r@.len() ==> #[trigger] r@[n] < sphere_vertex_count(stacks as nat, slices as nat),
{
    let mut out: Vec<u32> = Vec::new();
    let mut i: u32 = 0;
    while i < stacks
        invariant
            i <= stacks,
            (stacks + 1) * (slices + 1) <= 0x1_0000_0000,
            out@.len() == 6 * (i * slices),
            forall|ii: int, j: int, k: int|
                0 <= ii < i && 0 <= j < slices && 0 <= k < 6 ==> #[trigger] out@[6 * (ii * slices + j) + k]
                    == sphere_corner(ii, j, k, slices as int),
            forall|n: int| 0 <= n < out@.len() ==> #[trigger] out@[n] < (stacks + 1) * (slices + 1),
        decreases stacks - i,
    {
        let mut j: u32 = 0;
        while j < slices
            invariant
                i < stacks,
                j <= slices,
                (stacks + 1) * (slices + 1) <= 0x1_0000_0000,
                out@.len() == 6 * (i * slices + j),
                forall|ii: int, jj: int, k: int|
                    0 <= ii < i && 0 <= jj < slices && 0 <= k < 6 ==> #[trigger] out@[6 * (ii * slices + jj)
                        + k] == sphere_corner(ii, jj, k, slices as int),
                forall|jj: int, k: int|
                    0 <= jj < j && 0 <= k < 6 ==> #[trigger] out@[6 * (i * slices + jj) + k] == sphere_corner(
                        i as int,
                        jj,
                        k,
                        slices as int,
                    ),
                forall|n: int| 0 <= n < out@.len() ==> #[trigger] out@[n] < (stacks + 1) * (slices + 1),
            decreases slices - j,
        {
            proof {
                lemma_sphere_corner_bound(i as int, j as int, 0, stacks as int, slices as int);
                lemma_sphere_corner_bound(i as int, j as int, 4, stacks as int, slices as int);
                assert(i * (slices + 1) <= (stacks + 1) * (slices + 1)) by (nonlinear_arith)
                    requires
                        i < stacks,
                ;
                assert(i * (slices + 1) == i * slices + i) by (nonlinear_arith);
                assert(i * slices + j < stacks * slices) by (nonlinear_arith)
                    requires
                        i < stacks,
                        j < slices,
                ;
            }
            let a = i * (slices + 1) + j;
            let b = a + slices + 1;
            let ghost before = out@;
            let ghost start = 6 * (i * slices + j);
            out.push(a);
            out.push(b);
            out.push(a + 1);
            out.push(b);
            out.push(b + 1);
            out.push(a + 1);
            proof {
                assert forall|k: int| 0 <= k < 6 implies #[trigger] out@[start + k] == sphere_corner(
                    i as int,
                    j as int,
                    k,
                    slices as int,
                ) by {
                    assert(out@[start + k] == out@[6 * (i * slices + j) + k]);
                }
                assert forall|ii: int, jj: int, k: int|
                    0 <= ii < i && 0 <= jj < slices && 0 <= k < 6 implies #[trigger] out@[6 * (ii * slices + jj)
                        + k] == sphere_corner(ii, jj, k, slices as int) by {
                    assert(ii * slices + jj < i * slices) by (nonlinear_arith)
                        requires
                            0 <= ii < i,
                            0 <= jj < slices,
                    ;
                    assert(out@[6 * (ii * slices + jj) + k] == before[6 * (ii * slices + jj) + k]);
                }
                assert forall|jj: int, k: int| 0 <= jj < j + 1 && 0 <= k < 6 implies #[trigger] out@[6 * (i
                    * slices + jj) + k] == sphere_corner(i as int, jj, k, slices as int) by {
                    if jj < j {
                        assert(out@[6 * (i * slices + jj) + k] == before[6 * (i * slices + jj) + k]);
                    } else {
                        assert(6 * (i * slices + jj) + k == start + k);
                    }
                }
            }
            j = j + 1;
        }
        proof {
            assert((i + 1) * slices == i * slices + slices) by (nonlinear_arith);
            assert forall|ii: int, jj: int, k: int|
                0 <= ii < i + 1 && 0 <= jj < slices && 0 <= k < 6 implies #[trigger] out@[6 * (ii * slices + jj)
                    + k] == sphere_corner(ii, jj, k, slices as int) by {
                if ii == i {
                    assert(out@[6 * (i * slices + jj) + k] == sphere_corner(i as int, jj, k, slices as int));
                }
            }
        }
        i = i + 1;
    }
    proof {
        assert(6 * (stacks * slices) == 6 * stacks * slices) by (nonlinear_arith);
    }
    out
}

/// Appends `indices`, each shifted by `base`, to `all`: how the indices of
/// one mesh join those of the meshes before it.
pub fn append_offset_indices(all: &mut Vec<u32>, indices: &Vec<u32>, base: u32)
    requires
        forall|n: int| 0 <= n < indices@.len() ==> #[trigger] indices@[n] + base <= u32::MAX,
    ensures
        final(all)@.len() == old(all)@.len() + indices@.len(),
        final(all)@.take(old(all)@.len() as int) == old(all)@,
        forall|n: int| 0 <= n < indices@.len() ==> #[trigger] final(all)@[old(all)@.len() + n] == indices@[n] + base,
{
    let ghost start = all@;
    let mut i: usize = 0;
    while i < indices.len()
        invariant
            i <= indices@.len(),
            forall|n: int| 0 <= n < indices@.len() ==> #[trigger] indices@[n] + base <= u32::MAX,
            all@.len() == start.len() + i,
            all@.take(start.len() as int) == start,
            forall|n: int| 0 <= n < i ==> #[trigger] all@[start.len() + n] == indices@[n] + base,
        decreases indices@.len() - i,
    {
        let v = indices[i] + base;
        let ghost before = all@;
        all.push(v);
        proof {
            assert(all@.take(start.len() as int) =~= before.take(start.len() as int));
            assert forall|n: int| 0 <= n < i + 1 implies #[trigger] all@[start.len() + n] == indices@[n] + base by {
                if n < i {
                    assert(all@[start.len() + n] == before[start.len() + n]);
                }
            }
        }
        i = i + 1;
    }
}

} // verus!
