//! The packed on-disk form of the asset (the LAD format, version 1).
//!
//! A fixed 40-byte header (magic `LLAD`, version, four array counts as
//! 64-bit values) is followed by the four arrays back to back: cluster
//! records of 48 bytes, vertices of 32 bytes, 32-bit meshlet vertex
//! indices, and the raw primitive-index bytes. All multi-byte values are
//! little-endian. The encoder and the decoder marshal field by field, so
//! the byte layout is pinned by the functions below and not by any
//! in-memory representation.

use vstd::prelude::*;
use crate::error::DecodeError;
use crate::types::{AdaptrixFlatAsset, AdaptrixVertex, ClusterPacked, LadHeader};

verus! {

/// The four bytes of a 32-bit value, little-endian.
pub open spec fn le32(x: u32) -> Seq<u8> {
    seq![
        (x % 256) as u8,
        ((x / 256) % 256) as u8,
        ((x / 0x1_0000) % 256) as u8,
        ((x / 0x100_0000) % 256) as u8,
    ]
}

/// The eight bytes of a 64-bit value, little-endian.
pub open spec fn le64(x: u64) -> Seq<u8> {
    le32((x % 0x1_0000_0000) as u32) + le32((x / 0x1_0000_0000) as u32)
}

/// The 48-byte image of one cluster record.
pub open spec fn cluster_bytes(c: ClusterPacked) -> Seq<u8> {
    le32(c.center_radius[0]) + le32(c.center_radius[1]) + le32(c.center_radius[2]) + le32(
        c.center_radius[3],
    ) + le32(c.vertex_offset) + le32(c.triangle_offset) + le32(c.counts) + le32(c.lod_error)
        + le32(c.parent_error) + le32(c._padding[0]) + le32(c._padding[1]) + le32(c._padding[2])
}

/// The 32-byte image of one vertex.
pub open spec fn vertex_bytes(v: AdaptrixVertex) -> Seq<u8> {
    le32(v.position[0]) + le32(v.position[1]) + le32(v.position[2]) + le32(v.normal[0]) + le32(
        v.normal[1],
    ) + le32(v.normal[2]) + le32(v.uv[0]) + le32(v.uv[1])
}

/// The image of the cluster array.
pub open spec fn clusters_bytes(cs: Seq<ClusterPacked>) -> Seq<u8>
    decreases cs.len(),
{
    if cs.len() == 0 {
        Seq::empty()
    } else {
        clusters_bytes(cs.drop_last()) + cluster_bytes(cs.last())
    }
}

/// The image of the vertex array.
pub open spec fn vertices_bytes(vs: Seq<AdaptrixVertex>) -> Seq<u8>
    decreases vs.len(),
{
    if vs.len() == 0 {
        Seq::empty()
    } else {
        vertices_bytes(vs.drop_last()) + vertex_bytes(vs.last())
    }
}

/// The image of the meshlet-vertex-index array.
pub open spec fn indices_bytes(xs: Seq<u32>) -> Seq<u8>
    decreases xs.len(),
{
    if xs.len() == 0 {
        Seq::empty()
    } else {
        indices_bytes(xs.drop_last()) + le32(xs.last())
    }
}

/// The 40-byte header: magic, version 1, and the four array counts.
pub open spec fn header_bytes(a: AdaptrixFlatAsset) -> Seq<u8> {
    seq![76u8, 76u8, 65u8, 68u8] + le32(1) + le64(a.clusters@.len() as u64) + le64(
        a.vertices@.len() as u64,
    ) + le64(a.meshlet_vertex_indices@.len() as u64) + le64(
        a.meshlet_primitive_indices@.len() as u64,
    )
}

/// The whole file image of an asset.
pub open spec fn spec_encode_asset(a: AdaptrixFlatAsset) -> Seq<u8> {
    header_bytes(a) + clusters_bytes(a.clusters@) + vertices_bytes(a.vertices@) + indices_bytes(
        a.meshlet_vertex_indices@,
    ) + a.meshlet_primitive_indices@
}

proof fn lemma_clusters_bytes_len(cs: Seq<ClusterPacked>)
    ensures
        clusters_bytes(cs).len() == 48 * cs.len(),
    decreases cs.len(),
{
    if cs.len() > 0 {
        lemma_clusters_bytes_len(cs.drop_last());
    }
}

proof fn lemma_vertices_bytes_len(vs: Seq<AdaptrixVertex>)
    ensures
        vertices_bytes(vs).len() == 32 * vs.len(),
    decreases vs.len(),
{
    if vs.len() > 0 {
        lemma_vertices_bytes_len(vs.drop_last());
    }
}

proof fn lemma_indices_bytes_len(xs: Seq<u32>)
    ensures
        indices_bytes(xs).len() == 4 * xs.len(),
    decreases xs.len(),
{
    if xs.len() > 0 {
        lemma_indices_bytes_len(xs.drop_last());
    }
}

/// Appends the little-endian bytes of a 32-bit value.
fn push_u32_le(out: &mut Vec<u8>, x: u32)
    ensures
        final(out)@ == old(out)@ + le32(x),
{
    out.push((x % 256) as u8);
    out.push(((x / 256) % 256) as u8);
    out.push(((x / 0x1_0000) % 256) as u8);
    out.push(((x / 0x100_0000) % 256) as u8);
    proof {
        assert(final(out)@ =~= old(out)@ + le32(x));
    }
}

/// Appends the little-endian bytes of a 64-bit value.
fn push_u64_le(out: &mut Vec<u8>, x: u64)
    ensures
        final(out)@ == old(out)@ + le64(x),
{
    push_u32_le(out, (x % 0x1_0000_0000) as u32);
    push_u32_le(out, (x / 0x1_0000_0000) as u32);
    proof {
        assert(final(out)@ =~= old(out)@ + le64(x));
    }
}

/// Appends the 48-byte image of one cluster record.
fn push_cluster_bytes(out: &mut Vec<u8>, c: &ClusterPacked)
    ensures
        final(out)@ == old(out)@ + cluster_bytes(*c),
{
    push_u32_le(out, c.center_radius[0]);
    push_u32_le(out, c.center_radius[1]);
    push_u32_le(out, c.center_radius[2]);
    push_u32_le(out, c.center_radius[3]);
    push_u32_le(out, c.vertex_offset);
    push_u32_le(out, c.triangle_offset);
    push_u32_le(out, c.counts);
    push_u32_le(out, c.lod_error);
    push_u32_le(out, c.parent_error);
    push_u32_le(out, c._padding[0]);
    push_u32_le(out, c._padding[1]);
    push_u32_le(out, c._padding[2]);
    proof {
        assert(final(out)@ =~= old(out)@ + cluster_bytes(*c));
    }
}

/// Appends the 32-byte image of one vertex.
fn push_vertex_bytes(out: &mut Vec<u8>, v: &AdaptrixVertex)
    ensures
        final(out)@ == old(out)@ + vertex_bytes(*v),
{
    push_u32_le(out, v.position[0]);
    push_u32_le(out, v.position[1]);
    push_u32_le(out, v.position[2]);
    push_u32_le(out, v.normal[0]);
    push_u32_le(out, v.normal[1]);
    push_u32_le(out, v.normal[2]);
    push_u32_le(out, v.uv[0]);
    push_u32_le(out, v.uv[1]);
    proof {
        assert(final(out)@ =~= old(out)@ + vertex_bytes(*v));
    }
}

/// The header record of an asset's file image.
pub fn header_of(a: &AdaptrixFlatAsset) -> (h: LadHeader)
    ensures
        h.magic == [76u8, 76u8, 65u8, 68u8],
        h.version == 1,
        h.num_clusters == a.clusters@.len(),
        h.num_vertices == a.vertices@.len(),
        h.num_v_indices == a.meshlet_vertex_indices@.len(),
        h.num_p_indices == a.meshlet_primitive_indices@.len(),
{
    LadHeader {
        magic: [76, 76, 65, 68],
        version: 1,
        num_clusters: a.clusters.len() as u64,
        num_vertices: a.vertices.len() as u64,
        num_v_indices: a.meshlet_vertex_indices.len() as u64,
        num_p_indices: a.meshlet_primitive_indices.len() as u64,
    }
}

/// Serializes the asset into its exact file image.
pub fn encode_asset(a: &AdaptrixFlatAsset) -> (out: Vec<u8>)
    ensures
        out@ == spec_encode_asset(*a),
{
    let mut out: Vec<u8> = Vec::new();
    out.push(76);
    out.push(76);
    out.push(65);
    out.push(68);
    push_u32_le(&mut out, 1);
    push_u64_le(&mut out, a.clusters.len() as u64);
    push_u64_le(&mut out, a.vertices.len() as u64);
    push_u64_le(&mut out, a.meshlet_vertex_indices.len() as u64);
    push_u64_le(&mut out, a.meshlet_primitive_indices.len() as u64);
    proof {
        assert(out@ =~= header_bytes(*a));
    }

    let ghost header = out@;
    let mut k: usize = 0;
    while k < a.clusters.len()
        invariant
            k <= a.clusters@.len(),
            out@ == header + clusters_bytes(a.clusters@.take(k as int)),
        decreases a.clusters@.len() - k,
    {
        push_cluster_bytes(&mut out, &a.clusters[k]);
        proof {
            assert(a.clusters@.take(k + 1).drop_last() =~= a.clusters@.take(k as int));
            assert(a.clusters@.take(k + 1).last() == a.clusters@[k as int]);
        }
        k = k + 1;
    }
    proof {
        assert(a.clusters@.take(a.clusters@.len() as int) =~= a.clusters@);
    }

    let ghost part1 = out@;
    let mut v: usize = 0;
    while v < a.vertices.len()
        invariant
            v <= a.vertices@.len(),
            out@ == part1 + vertices_bytes(a.vertices@.take(v as int)),
        decreases a.vertices@.len() - v,
    {
        push_vertex_bytes(&mut out, &a.vertices[v]);
        proof {
            assert(a.vertices@.take(v + 1).drop_last() =~= a.vertices@.take(v as int));
            assert(a.vertices@.take(v + 1).last() == a.vertices@[v as int]);
        }
        v = v + 1;
    }
    proof {
        assert(a.vertices@.take(a.vertices@.len() as int) =~= a.vertices@);
    }

    let ghost part2 = out@;
    let mut x: usize = 0;
    while x < a.meshlet_vertex_indices.len()
        invariant
            x <= a.meshlet_vertex_indices@.len(),
            out@ == part2 + indices_bytes(a.meshlet_vertex_indices@.take(x as int)),
        decreases a.meshlet_vertex_indices@.len() - x,
    {
        push_u32_le(&mut out, a.meshlet_vertex_indices[x]);
        proof {
            assert(a.meshlet_vertex_indices@.take(x + 1).drop_last()
                =~= a.meshlet_vertex_indices@.take(x as int));
            assert(a.meshlet_vertex_indices@.take(x + 1).last()
                == a.meshlet_vertex_indices@[x as int]);
        }
        x = x + 1;
    }
    proof {
        assert(a.meshlet_vertex_indices@.take(a.meshlet_vertex_indices@.len() as int)
            =~= a.meshlet_vertex_indices@);
    }

    let ghost part3 = out@;
    let mut p: usize = 0;
    while p < a.meshlet_primitive_indices.len()
        invariant
            p <= a.meshlet_primitive_indices@.len(),
            out@ == part3 + a.meshlet_primitive_indices@.take(p as int),
        decreases a.meshlet_primitive_indices@.len() - p,
    {
        out.push(a.meshlet_primitive_indices[p]);
        proof {
            assert(a.meshlet_primitive_indices@.take(p + 1)
                =~= a.meshlet_primitive_indices@.take(p as int).push(
                a.meshlet_primitive_indices@[p as int],
            ));
        }
        p = p + 1;
    }
    proof {
        assert(a.meshlet_primitive_indices@.take(a.meshlet_primitive_indices@.len() as int)
            =~= a.meshlet_primitive_indices@);
        assert(out@ =~= spec_encode_asset(*a));
    }
    out
}

/// The 32-bit value stored little-endian at `off`.
pub open spec fn spec_parse_u32(b: Seq<u8>, off: int) -> int {
    b[off] + 256 * b[off + 1] + 0x1_0000 * b[off + 2] + 0x100_0000 * b[off + 3]
}

/// The 64-bit value stored little-endian at `off`.
pub open spec fn spec_parse_u64(b: Seq<u8>, off: int) -> int {
    spec_parse_u32(b, off) + 0x1_0000_0000 * spec_parse_u32(b, off + 4)
}

proof fn lemma_parse_le32(b: Seq<u8>, off: int)
    requires
        0 <= off,
        off + 4 <= b.len(),
    ensures
        0 <= spec_parse_u32(b, off) < 0x1_0000_0000,
        le32(spec_parse_u32(b, off) as u32) == b.subrange(off, off + 4),
{
    let x = spec_parse_u32(b, off);
    assert(b[off] < 256 && b[off + 1] < 256 && b[off + 2] < 256 && b[off + 3] < 256);
    assert(le32(x as u32) =~= b.subrange(off, off + 4)) by {
        assert(x % 256 == b[off]) by (nonlinear_arith)
            requires
                x == b[off] + 256 * b[off + 1] + 0x1_0000 * b[off + 2] + 0x100_0000 * b[off + 3],
                0 <= b[off] < 256,
                0 <= b[off + 1] < 256,
                0 <= b[off + 2] < 256,
                0 <= b[off + 3] < 256,
        ;
        assert((x / 256) % 256 == b[off + 1]) by (nonlinear_arith)
            requires
                x == b[off] + 256 * b[off + 1] + 0x1_0000 * b[off + 2] + 0x100_0000 * b[off + 3],
                0 <= b[off] < 256,
                0 <= b[off + 1] < 256,
                0 <= b[off + 2] < 256,
                0 <= b[off + 3] < 256,
        ;
        assert((x / 0x1_0000) % 256 == b[off + 2]) by (nonlinear_arith)
            requires
                x == b[off] + 256 * b[off + 1] + 0x1_0000 * b[off + 2] + 0x100_0000 * b[off + 3],
                0 <= b[off] < 256,
                0 <= b[off + 1] < 256,
                0 <= b[off + 2] < 256,
                0 <= b[off + 3] < 256,
        ;
        assert((x / 0x100_0000) % 256 == b[off + 3]) by (nonlinear_arith)
            requires
                x == b[off] + 256 * b[off + 1] + 0x1_0000 * b[off + 2] + 0x100_0000 * b[off + 3],
                0 <= b[off] < 256,
                0 <= b[off + 1] < 256,
                0 <= b[off + 2] < 256,
                0 <= b[off + 3] < 256,
        ;
    }
}

proof fn lemma_parse_le64(b: Seq<u8>, off: int)
    requires
        0 <= off,
        off + 8 <= b.len(),
    ensures
        0 <= spec_parse_u64(b, off) < 0x1_0000_0000_0000_0000,
        le64(spec_parse_u64(b, off) as u64) == b.subrange(off, off + 8),
{
    lemma_parse_le32(b, off);
    lemma_parse_le32(b, off + 4);
    let lo = spec_parse_u32(b, off);
    let hi = spec_parse_u32(b, off + 4);
    let x = spec_parse_u64(b, off);
    assert((x as u64) % 0x1_0000_0000 == lo && (x as u64) / 0x1_0000_0000 == hi)
        by (nonlinear_arith)
        requires
            x == lo + 0x1_0000_0000 * hi,
            0 <= lo < 0x1_0000_0000,
            0 <= hi < 0x1_0000_0000,
            x == x as u64,
    ;
    assert(le64(x as u64) =~= b.subrange(off, off + 8)) by {
        assert(le32(lo as u32) == b.subrange(off, off + 4));
        assert(le32(hi as u32) == b.subrange(off + 4, off + 8));
    }
}

/// Reads a 32-bit little-endian value.
fn parse_u32(bytes: &Vec<u8>, off: usize) -> (x: u32)
    requires
        off + 4 <= bytes@.len(),
        bytes@.len() <= usize::MAX,
    ensures
        x == spec_parse_u32(bytes@, off as int),
{
    bytes[off] as u32 + 256 * (bytes[off + 1] as u32) + 0x1_0000 * (bytes[off + 2] as u32)
        + 0x100_0000 * (bytes[off + 3] as u32)
}

/// Reads a 64-bit little-endian value.
fn parse_u64(bytes: &Vec<u8>, off: usize) -> (x: u64)
    requires
        off + 8 <= bytes@.len(),
        bytes@.len() <= usize::MAX,
    ensures
        x == spec_parse_u64(bytes@, off as int),
{
    let lo = parse_u32(bytes, off);
    let hi = parse_u32(bytes, off + 4);
    lo as u64 + 0x1_0000_0000u64 * (hi as u64)
}


/// Reads one 48-byte cluster record.
#[verifier::rlimit(100)]
#[verifier::spinoff_prover]
fn parse_cluster(bytes: &Vec<u8>, off: usize) -> (c: ClusterPacked)
    requires
        off + 48 <= bytes@.len(),
        bytes@.len() <= usize::MAX,
    ensures
        cluster_bytes(c) == bytes@.subrange(off as int, off + 48),
{
    let c = ClusterPacked {
        center_radius: [
            parse_u32(bytes, off),
            parse_u32(bytes, off + 4),
            parse_u32(bytes, off + 8),
            parse_u32(bytes, off + 12),
        ],
        vertex_offset: parse_u32(bytes, off + 16),
        triangle_offset: parse_u32(bytes, off + 20),
        counts: parse_u32(bytes, off + 24),
        lod_error: parse_u32(bytes, off + 28),
        parent_error: parse_u32(bytes, off + 32),
        _padding: [parse_u32(bytes, off + 36), parse_u32(bytes, off + 40), parse_u32(bytes, off + 44)],
    };
    proof {
        let o = off as int;
        assert(cluster_bytes(c) =~= bytes@.subrange(o, o + 48)) by {
            lemma_parse_le32(bytes@, o);
            lemma_parse_le32(bytes@, o + 4);
            lemma_parse_le32(bytes@, o + 8);
            lemma_parse_le32(bytes@, o + 12);
            lemma_parse_le32(bytes@, o + 16);
            lemma_parse_le32(bytes@, o + 20);
            lemma_parse_le32(bytes@, o + 24);
            lemma_parse_le32(bytes@, o + 28);
            lemma_parse_le32(bytes@, o + 32);
            lemma_parse_le32(bytes@, o + 36);
            lemma_parse_le32(bytes@, o + 40);
            lemma_parse_le32(bytes@, o + 44);
        }
    }
    c
}

/// Reads one 32-byte vertex.
#[verifier::rlimit(100)]
#[verifier::spinoff_prover]
fn parse_vertex(bytes: &Vec<u8>, off: usize) -> (v: AdaptrixVertex)
    requires
        off + 32 <= bytes@.len(),
        bytes@.len() <= usize::MAX,
    ensures
        vertex_bytes(v) == bytes@.subrange(off as int, off + 32),
{
    let v = AdaptrixVertex {
        position: [parse_u32(bytes, off), parse_u32(bytes, off + 4), parse_u32(bytes, off + 8)],
        normal: [parse_u32(bytes, off + 12), parse_u32(bytes, off + 16), parse_u32(bytes, off + 20)],
        uv: [parse_u32(bytes, off + 24), parse_u32(bytes, off + 28)],
    };
    proof {
        let o = off as int;
        assert(vertex_bytes(v) =~= bytes@.subrange(o, o + 32)) by {
            lemma_parse_le32(bytes@, o);
            lemma_parse_le32(bytes@, o + 4);
            lemma_parse_le32(bytes@, o + 8);
            lemma_parse_le32(bytes@, o + 12);
            lemma_parse_le32(bytes@, o + 16);
            lemma_parse_le32(bytes@, o + 20);
            lemma_parse_le32(bytes@, o + 24);
            lemma_parse_le32(bytes@, o + 28);
        }
    }
    v
}

/// The bytes carry a readable LAD file: enough bytes for a header, the
/// magic and version match, and the four arrays the header announces fit
/// inside the bytes (a lower bound; trailing bytes are tolerated).
pub open spec fn lad_parse_ok(b: Seq<u8>) -> bool {
    &&& b.len() >= 40
    &&& b[0] == 76u8 && b[1] == 76u8 && b[2] == 65u8 && b[3] == 68u8
    &&& spec_parse_u32(b, 4) == 1
    &&& 40 + 48 * spec_parse_u64(b, 8) + 32 * spec_parse_u64(b, 16) + 4 * spec_parse_u64(b, 24)
        + spec_parse_u64(b, 32) <= b.len()
}

/// What a successful decode returns: the array lengths follow the header,
/// and every element re-encodes to exactly the bytes it was read from.
pub open spec fn decoded_from(a: AdaptrixFlatAsset, b: Seq<u8>) -> bool {
    let nc = spec_parse_u64(b, 8);
    let nv = spec_parse_u64(b, 16);
    let ni = spec_parse_u64(b, 24);
    let np = spec_parse_u64(b, 32);
    let voff = 40 + 48 * nc;
    let ioff = voff + 32 * nv;
    let poff = ioff + 4 * ni;
    &&& a.clusters@.len() == nc
    &&& a.vertices@.len() == nv
    &&& a.meshlet_vertex_indices@.len() == ni
    &&& a.meshlet_primitive_indices@.len() == np
    &&& forall|k: int|
        0 <= k < nc ==> cluster_bytes(#[trigger] a.clusters@[k]) == b.subrange(
            40 + 48 * k,
            40 + 48 * k + 48,
        )
    &&& forall|k: int|
        0 <= k < nv ==> vertex_bytes(#[trigger] a.vertices@[k]) == b.subrange(
            voff + 32 * k,
            voff + 32 * k + 32,
        )
    &&& forall|k: int|
        0 <= k < ni ==> le32(#[trigger] a.meshlet_vertex_indices@[k]) == b.subrange(
            ioff + 4 * k,
            ioff + 4 * k + 4,
        )
    &&& a.meshlet_primitive_indices@ == b.subrange(poff, poff + np)
}

/// Reads an asset back from its file image. Succeeds exactly on bytes
/// that carry a readable LAD file; the result re-encodes to the bytes it
/// was read from, element by element.
#[verifier::rlimit(100)]
pub fn decode_asset(bytes: &Vec<u8>) -> (r: Result<AdaptrixFlatAsset, DecodeError>)
    ensures
        r is Ok <==> lad_parse_ok(bytes@),
        match r {
            Ok(a) => decoded_from(a, bytes@),
            Err(e) => true,
        },
{
    if bytes.len() < 40 {
        return Err(DecodeError::TooSmall);
    }
    if !(bytes[0] == 76 && bytes[1] == 76 && bytes[2] == 65 && bytes[3] == 68) {
        return Err(DecodeError::BadMagic);
    }
    if parse_u32(bytes, 4) != 1 {
        return Err(DecodeError::BadVersion);
    }
    let nc64 = parse_u64(bytes, 8);
    let nv64 = parse_u64(bytes, 16);
    let ni64 = parse_u64(bytes, 24);
    let np64 = parse_u64(bytes, 32);
    let total: u128 = 40u128 + 48u128 * (nc64 as u128) + 32u128 * (nv64 as u128) + 4u128 * (
    ni64 as u128) + np64 as u128;
    if total > bytes.len() as u128 {
        return Err(DecodeError::Truncated);
    }
    let nc = nc64 as usize;
    let nv = nv64 as usize;
    let ni = ni64 as usize;
    let np = np64 as usize;

    let mut clusters: Vec<ClusterPacked> = Vec::new();
    let mut k: usize = 0;
    while k < nc
        invariant
            k <= nc,
            bytes@.len() <= usize::MAX,
            nc == spec_parse_u64(bytes@, 8),
            40 + 48 * (nc as int) <= bytes@.len(),
            clusters@.len() == k,
            forall|t: int|
                0 <= t < k ==> cluster_bytes(#[trigger] clusters@[t]) == bytes@.subrange(
                    40 + 48 * t,
                    40 + 48 * t + 48,
                ),
        decreases nc - k,
    {
        let off = 40 + 48 * k;
        let c = parse_cluster(bytes, off);
        clusters.push(c);
        k = k + 1;
    }

    let voff = 40 + 48 * nc;
    let mut vertices: Vec<AdaptrixVertex> = Vec::new();
    let mut vk: usize = 0;
    while vk < nv
        invariant
            vk <= nv,
            bytes@.len() <= usize::MAX,
            voff == 40 + 48 * spec_parse_u64(bytes@, 8),
            nv == spec_parse_u64(bytes@, 16),
            voff + 32 * (nv as int) <= bytes@.len(),
            vertices@.len() == vk,
            forall|t: int|
                0 <= t < vk ==> vertex_bytes(#[trigger] vertices@[t]) == bytes@.subrange(
                    voff + 32 * t,
                    voff + 32 * t + 32,
                ),
        decreases nv - vk,
    {
        let off = voff + 32 * vk;
        let v = parse_vertex(bytes, off);
        vertices.push(v);
        vk = vk + 1;
    }

    let ioff = voff + 32 * nv;
    let mut mvi: Vec<u32> = Vec::new();
    let mut ik: usize = 0;
    while ik < ni
        invariant
            ik <= ni,
            bytes@.len() <= usize::MAX,
            ioff == 40 + 48 * spec_parse_u64(bytes@, 8) + 32 * spec_parse_u64(bytes@, 16),
            ni == spec_parse_u64(bytes@, 24),
            ioff + 4 * (ni as int) <= bytes@.len(),
            mvi@.len() == ik,
            forall|t: int|
                0 <= t < ik ==> le32(#[trigger] mvi@[t]) == bytes@.subrange(
                    ioff + 4 * t,
                    ioff + 4 * t + 4,
                ),
        decreases ni - ik,
    {
        let off = ioff + 4 * ik;
        let x = parse_u32(bytes, off);
        proof {
            lemma_parse_le32(bytes@, off as int);
        }
        mvi.push(x);
        ik = ik + 1;
    }

    let poff = ioff + 4 * ni;
    let mut prims: Vec<u8> = Vec::new();
    let mut pp: usize = 0;
    while pp < np
        invariant
            pp <= np,
            bytes@.len() <= usize::MAX,
            poff + np <= bytes@.len(),
            prims@.len() == pp,
            forall|t: int| 0 <= t < pp ==> #[trigger] prims@[t] == bytes@[poff + t],
        decreases np - pp,
    {
        prims.push(bytes[poff + pp]);
        pp = pp + 1;
    }
    proof {
        assert(prims@ =~= bytes@.subrange(poff as int, poff + np));
    }

    Ok(
        AdaptrixFlatAsset {
            clusters,
            vertices,
            meshlet_vertex_indices: mvi,
            meshlet_primitive_indices: prims,
        },
    )
}

proof fn lemma_le32_injective(x1: u32, x2: u32)
    requires
        le32(x1) == le32(x2),
    ensures
        x1 == x2,
{
    assert(x1 == x1 % 256 + 256 * ((x1 / 256) % 256) + 0x1_0000 * ((x1 / 0x1_0000) % 256)
        + 0x100_0000 * ((x1 / 0x100_0000) % 256)) by (bit_vector);
    assert(x2 == x2 % 256 + 256 * ((x2 / 256) % 256) + 0x1_0000 * ((x2 / 0x1_0000) % 256)
        + 0x100_0000 * ((x2 / 0x100_0000) % 256)) by (bit_vector);
    assert(le32(x1)[0] == le32(x2)[0] && le32(x1)[1] == le32(x2)[1] && le32(x1)[2] == le32(x2)[2]
        && le32(x1)[3] == le32(x2)[3]);
}

proof fn lemma_le32_at(b: Seq<u8>, off: int, x: u32)
    requires
        0 <= off,
        off + 4 <= b.len(),
        b.subrange(off, off + 4) == le32(x),
    ensures
        spec_parse_u32(b, off) == x,
{
    lemma_parse_le32(b, off);
    lemma_le32_injective(spec_parse_u32(b, off) as u32, x);
}

proof fn lemma_le64_at(b: Seq<u8>, off: int, x: u64)
    requires
        0 <= off,
        off + 8 <= b.len(),
        b.subrange(off, off + 8) == le64(x),
    ensures
        spec_parse_u64(b, off) == x,
{
    assert(b.subrange(off, off + 4) =~= le32((x % 0x1_0000_0000) as u32)) by {
        assert forall|t: int| 0 <= t < 4 implies #[trigger] b.subrange(off, off + 4)[t] == le32(
            (x % 0x1_0000_0000) as u32,
        )[t] by {
            assert(b.subrange(off, off + 8)[t] == b[off + t]);
        }
    }
    assert(b.subrange(off + 4, off + 8) =~= le32((x / 0x1_0000_0000) as u32)) by {
        assert forall|t: int| 0 <= t < 4 implies #[trigger] b.subrange(off + 4, off + 8)[t] == le32(
            (x / 0x1_0000_0000) as u32,
        )[t] by {
            assert(b.subrange(off, off + 8)[4 + t] == b[off + 4 + t]);
        }
    }
    lemma_le32_at(b, off, (x % 0x1_0000_0000) as u32);
    lemma_le32_at(b, off + 4, (x / 0x1_0000_0000) as u32);
}

/// The cluster byte image determines the record.
#[verifier::rlimit(100)]
#[verifier::spinoff_prover]
pub proof fn lemma_cluster_bytes_injective(c1: ClusterPacked, c2: ClusterPacked)
    requires
        cluster_bytes(c1) == cluster_bytes(c2),
    ensures
        c1 == c2,
{
    assert(cluster_bytes(c1).subrange(0, 4) =~= le32(c1.center_radius[0]));
    assert(cluster_bytes(c2).subrange(0, 4) =~= le32(c2.center_radius[0]));
    lemma_le32_injective(c1.center_radius[0], c2.center_radius[0]);
    assert(cluster_bytes(c1).subrange(4, 8) =~= le32(c1.center_radius[1]));
    assert(cluster_bytes(c2).subrange(4, 8) =~= le32(c2.center_radius[1]));
    lemma_le32_injective(c1.center_radius[1], c2.center_radius[1]);
    assert(cluster_bytes(c1).subrange(8, 12) =~= le32(c1.center_radius[2]));
    assert(cluster_bytes(c2).subrange(8, 12) =~= le32(c2.center_radius[2]));
    lemma_le32_injective(c1.center_radius[2], c2.center_radius[2]);
    assert(cluster_bytes(c1).subrange(12, 16) =~= le32(c1.center_radius[3]));
    assert(cluster_bytes(c2).subrange(12, 16) =~= le32(c2.center_radius[3]));
    lemma_le32_injective(c1.center_radius[3], c2.center_radius[3]);
    assert(cluster_bytes(c1).subrange(16, 20) =~= le32(c1.vertex_offset));
    assert(cluster_bytes(c2).subrange(16, 20) =~= le32(c2.vertex_offset));
    lemma_le32_injective(c1.vertex_offset, c2.vertex_offset);
    assert(cluster_bytes(c1).subrange(20, 24) =~= le32(c1.triangle_offset));
    assert(cluster_bytes(c2).subrange(20, 24) =~= le32(c2.triangle_offset));
    lemma_le32_injective(c1.triangle_offset, c2.triangle_offset);
    assert(cluster_bytes(c1).subrange(24, 28) =~= le32(c1.counts));
    assert(cluster_bytes(c2).subrange(24, 28) =~= le32(c2.counts));
    lemma_le32_injective(c1.counts, c2.counts);
    assert(cluster_bytes(c1).subrange(28, 32) =~= le32(c1.lod_error));
    assert(cluster_bytes(c2).subrange(28, 32) =~= le32(c2.lod_error));
    lemma_le32_injective(c1.lod_error, c2.lod_error);
    assert(cluster_bytes(c1).subrange(32, 36) =~= le32(c1.parent_error));
    assert(cluster_bytes(c2).subrange(32, 36) =~= le32(c2.parent_error));
    lemma_le32_injective(c1.parent_error, c2.parent_error);
    assert(cluster_bytes(c1).subrange(36, 40) =~= le32(c1._padding[0]));
    assert(cluster_bytes(c2).subrange(36, 40) =~= le32(c2._padding[0]));
    lemma_le32_injective(c1._padding[0], c2._padding[0]);
    assert(cluster_bytes(c1).subrange(40, 44) =~= le32(c1._padding[1]));
    assert(cluster_bytes(c2).subrange(40, 44) =~= le32(c2._padding[1]));
    lemma_le32_injective(c1._padding[1], c2._padding[1]);
    assert(cluster_bytes(c1).subrange(44, 48) =~= le32(c1._padding[2]));
    assert(cluster_bytes(c2).subrange(44, 48) =~= le32(c2._padding[2]));
    lemma_le32_injective(c1._padding[2], c2._padding[2]);
    assert(c1.center_radius =~= c2.center_radius);
    assert(c1._padding =~= c2._padding);
}

/// The fields of a cluster record, in byte order.
pub open spec fn cluster_field(c: ClusterPacked, q: int) -> u32 {
    if q == 0 {
        c.center_radius[0]
    } else if q == 1 {
        c.center_radius[1]
    } else if q == 2 {
        c.center_radius[2]
    } else if q == 3 {
        c.center_radius[3]
    } else if q == 4 {
        c.vertex_offset
    } else if q == 5 {
        c.triangle_offset
    } else if q == 6 {
        c.counts
    } else if q == 7 {
        c.lod_error
    } else if q == 8 {
        c.parent_error
    } else if q == 9 {
        c._padding[0]
    } else if q == 10 {
        c._padding[1]
    } else {
        c._padding[2]
    }
}

/// The fields of a vertex, in byte order.
pub open spec fn vertex_field(v: AdaptrixVertex, q: int) -> u32 {
    if q == 0 {
        v.position[0]
    } else if q == 1 {
        v.position[1]
    } else if q == 2 {
        v.position[2]
    } else if q == 3 {
        v.normal[0]
    } else if q == 4 {
        v.normal[1]
    } else if q == 5 {
        v.normal[2]
    } else if q == 6 {
        v.uv[0]
    } else {
        v.uv[1]
    }
}

/// The vertex byte image determines the vertex.
#[verifier::rlimit(100)]
#[verifier::spinoff_prover]
pub proof fn lemma_vertex_bytes_injective(v1: AdaptrixVertex, v2: AdaptrixVertex)
    requires
        vertex_bytes(v1) == vertex_bytes(v2),
    ensures
        v1 == v2,
{
    assert(vertex_bytes(v1).subrange(0, 4) =~= le32(v1.position[0]));
    assert(vertex_bytes(v2).subrange(0, 4) =~= le32(v2.position[0]));
    lemma_le32_injective(v1.position[0], v2.position[0]);
    assert(vertex_bytes(v1).subrange(4, 8) =~= le32(v1.position[1]));
    assert(vertex_bytes(v2).subrange(4, 8) =~= le32(v2.position[1]));
    lemma_le32_injective(v1.position[1], v2.position[1]);
    assert(vertex_bytes(v1).subrange(8, 12) =~= le32(v1.position[2]));
    assert(vertex_bytes(v2).subrange(8, 12) =~= le32(v2.position[2]));
    lemma_le32_injective(v1.position[2], v2.position[2]);
    assert(vertex_bytes(v1).subrange(12, 16) =~= le32(v1.normal[0]));
    assert(vertex_bytes(v2).subrange(12, 16) =~= le32(v2.normal[0]));
    lemma_le32_injective(v1.normal[0], v2.normal[0]);
    assert(vertex_bytes(v1).subrange(16, 20) =~= le32(v1.normal[1]));
    assert(vertex_bytes(v2).subrange(16, 20) =~= le32(v2.normal[1]));
    lemma_le32_injective(v1.normal[1], v2.normal[1]);
    assert(vertex_bytes(v1).subrange(20, 24) =~= le32(v1.normal[2]));
    assert(vertex_bytes(v2).subrange(20, 24) =~= le32(v2.normal[2]));
    lemma_le32_injective(v1.normal[2], v2.normal[2]);
    assert(vertex_bytes(v1).subrange(24, 28) =~= le32(v1.uv[0]));
    assert(vertex_bytes(v2).subrange(24, 28) =~= le32(v2.uv[0]));
    lemma_le32_injective(v1.uv[0], v2.uv[0]);
    assert(vertex_bytes(v1).subrange(28, 32) =~= le32(v1.uv[1]));
    assert(vertex_bytes(v2).subrange(28, 32) =~= le32(v2.uv[1]));
    lemma_le32_injective(v1.uv[1], v2.uv[1]);
    assert(v1.position =~= v2.position);
    assert(v1.normal =~= v2.normal);
    assert(v1.uv =~= v2.uv);
}

#[verifier::rlimit(100)]
#[verifier::spinoff_prover]
proof fn lemma_clusters_bytes_slice(cs: Seq<ClusterPacked>, k: int)
    requires
        0 <= k < cs.len(),
    ensures
        clusters_bytes(cs).subrange(48 * k, 48 * k + 48) == cluster_bytes(cs[k]),
    decreases cs.len(),
{
    lemma_clusters_bytes_len(cs);
    lemma_clusters_bytes_len(cs.drop_last());
    if k == cs.len() - 1 {
        assert(clusters_bytes(cs).subrange(48 * k, 48 * k + 48) =~= cluster_bytes(cs.last()));
    } else {
        lemma_clusters_bytes_slice(cs.drop_last(), k);
        assert(clusters_bytes(cs).subrange(48 * k, 48 * k + 48) =~= clusters_bytes(
            cs.drop_last(),
        ).subrange(48 * k, 48 * k + 48));
    }
}

#[verifier::rlimit(100)]
#[verifier::spinoff_prover]
proof fn lemma_vertices_bytes_slice(vs: Seq<AdaptrixVertex>, k: int)
    requires
        0 <= k < vs.len(),
    ensures
        vertices_bytes(vs).subrange(32 * k, 32 * k + 32) == vertex_bytes(vs[k]),
    decreases vs.len(),
{
    lemma_vertices_bytes_len(vs);
    lemma_vertices_bytes_len(vs.drop_last());
    if k == vs.len() - 1 {
        assert(vertices_bytes(vs).subrange(32 * k, 32 * k + 32) =~= vertex_bytes(vs.last()));
    } else {
        lemma_vertices_bytes_slice(vs.drop_last(), k);
        assert(vertices_bytes(vs).subrange(32 * k, 32 * k + 32) =~= vertices_bytes(
            vs.drop_last(),
        ).subrange(32 * k, 32 * k + 32));
    }
}

#[verifier::rlimit(100)]
#[verifier::spinoff_prover]
proof fn lemma_indices_bytes_slice(xs: Seq<u32>, k: int)
    requires
        0 <= k < xs.len(),
    ensures
        indices_bytes(xs).subrange(4 * k, 4 * k + 4) == le32(xs[k]),
    decreases xs.len(),
{
    lemma_indices_bytes_len(xs);
    lemma_indices_bytes_len(xs.drop_last());
    if k == xs.len() - 1 {
        assert(indices_bytes(xs).subrange(4 * k, 4 * k + 4) =~= le32(xs.last()));
    } else {
        lemma_indices_bytes_slice(xs.drop_last(), k);
        assert(indices_bytes(xs).subrange(4 * k, 4 * k + 4) =~= indices_bytes(
            xs.drop_last(),
        ).subrange(4 * k, 4 * k + 4));
    }
}

/// A serialized asset always parses: its image is a readable LAD file and
/// every array element sits at its place in the image.
proof fn lemma_slice_at(whole: Seq<u8>, pre_len: int, mid: Seq<u8>, lo: int, hi: int)
    requires
        0 <= pre_len,
        0 <= lo <= hi <= mid.len(),
        pre_len + mid.len() <= whole.len(),
        forall|t: int| 0 <= t < mid.len() ==> #[trigger] whole[pre_len + t] == mid[t],
    ensures
        whole.subrange(pre_len + lo, pre_len + hi) == mid.subrange(lo, hi),
{
    assert forall|t: int| 0 <= t < hi - lo implies #[trigger] whole.subrange(
        pre_len + lo,
        pre_len + hi,
    )[t] == mid.subrange(lo, hi)[t] by {
        let q = lo + t;
        assert(whole[pre_len + q] == mid[q]);
    }
    assert(whole.subrange(pre_len + lo, pre_len + hi) =~= mid.subrange(lo, hi));
}

#[verifier::rlimit(100)]
#[verifier::spinoff_prover]
pub proof fn lemma_encode_asset_parses(a: AdaptrixFlatAsset)
    requires
        a.clusters@.len() <= u64::MAX,
        a.vertices@.len() <= u64::MAX,
        a.meshlet_vertex_indices@.len() <= u64::MAX,
        a.meshlet_primitive_indices@.len() <= u64::MAX,
    ensures
        lad_parse_ok(spec_encode_asset(a)),
        spec_parse_u64(spec_encode_asset(a), 8) == a.clusters@.len(),
        spec_parse_u64(spec_encode_asset(a), 16) == a.vertices@.len(),
        spec_parse_u64(spec_encode_asset(a), 24) == a.meshlet_vertex_indices@.len(),
        spec_parse_u64(spec_encode_asset(a), 32) == a.meshlet_primitive_indices@.len(),
{
    let b = spec_encode_asset(a);
    let h = header_bytes(a);
    lemma_clusters_bytes_len(a.clusters@);
    lemma_vertices_bytes_len(a.vertices@);
    lemma_indices_bytes_len(a.meshlet_vertex_indices@);
    assert(h.len() == 40);
    assert(b.len() == 40 + 48 * a.clusters@.len() + 32 * a.vertices@.len() + 4
        * a.meshlet_vertex_indices@.len() + a.meshlet_primitive_indices@.len());
    assert forall|t: int| 0 <= t < 40 implies #[trigger] b[t] == h[t] by {}
    assert(b[0] == 76u8 && b[1] == 76u8 && b[2] == 65u8 && b[3] == 68u8);
    assert(b.subrange(4, 8) =~= le32(1));
    lemma_le32_at(b, 4, 1);
    assert(b.subrange(8, 16) =~= le64(a.clusters@.len() as u64));
    lemma_le64_at(b, 8, a.clusters@.len() as u64);
    assert(b.subrange(16, 24) =~= le64(a.vertices@.len() as u64));
    lemma_le64_at(b, 16, a.vertices@.len() as u64);
    assert(b.subrange(24, 32) =~= le64(a.meshlet_vertex_indices@.len() as u64));
    lemma_le64_at(b, 24, a.meshlet_vertex_indices@.len() as u64);
    assert(b.subrange(32, 40) =~= le64(a.meshlet_primitive_indices@.len() as u64));
    lemma_le64_at(b, 32, a.meshlet_primitive_indices@.len() as u64);
}

/// Round trip: whatever decodes from a serialized asset holds exactly the
/// arrays that were serialized.
#[verifier::rlimit(100)]
#[verifier::spinoff_prover]
proof fn lemma_encode_layout(a: AdaptrixFlatAsset)
    ensures
        spec_encode_asset(a).len() == 40 + 48 * a.clusters@.len() + 32 * a.vertices@.len() + 4
            * a.meshlet_vertex_indices@.len() + a.meshlet_primitive_indices@.len(),
        forall|t: int|
            0 <= t < clusters_bytes(a.clusters@).len() ==> #[trigger] spec_encode_asset(a)[40 + t]
                == clusters_bytes(a.clusters@)[t],
        forall|t: int|
            0 <= t < vertices_bytes(a.vertices@).len() ==> #[trigger] spec_encode_asset(a)[40 + 48
                * a.clusters@.len() + t] == vertices_bytes(a.vertices@)[t],
        forall|t: int|
            0 <= t < indices_bytes(a.meshlet_vertex_indices@).len() ==> #[trigger] spec_encode_asset(
                a,
            )[40 + 48 * a.clusters@.len() + 32 * a.vertices@.len() + t] == indices_bytes(
                a.meshlet_vertex_indices@,
            )[t],
        forall|t: int|
            0 <= t < a.meshlet_primitive_indices@.len() ==> #[trigger] spec_encode_asset(a)[40 + 48
                * a.clusters@.len() + 32 * a.vertices@.len() + 4 * a.meshlet_vertex_indices@.len()
                + t] == a.meshlet_primitive_indices@[t],
{
    lemma_clusters_bytes_len(a.clusters@);
    lemma_vertices_bytes_len(a.vertices@);
    lemma_indices_bytes_len(a.meshlet_vertex_indices@);
}

#[verifier::rlimit(100)]
#[verifier::spinoff_prover]
proof fn lemma_encode_vertex_slices(a: AdaptrixFlatAsset)
    ensures
        forall|k: int|
            0 <= k < a.vertices@.len() ==> spec_encode_asset(a).subrange(
                40 + 48 * a.clusters@.len() + 32 * k,
                40 + 48 * a.clusters@.len() + 32 * k + 32,
            ) == vertex_bytes(#[trigger] a.vertices@[k]),
{
    lemma_encode_layout(a);
    let b = spec_encode_asset(a);
    let vb = vertices_bytes(a.vertices@);
    let voff = 40 + 48 * a.clusters@.len() as int;
    lemma_vertices_bytes_len(a.vertices@);
    assert forall|k: int| 0 <= k < a.vertices@.len() implies b.subrange(
        voff + 32 * k,
        voff + 32 * k + 32,
    ) == vertex_bytes(#[trigger] a.vertices@[k]) by {
        lemma_vertices_bytes_slice(a.vertices@, k);
        lemma_slice_at(b, voff, vb, 32 * k, 32 * k + 32);
    }
}

#[verifier::rlimit(100)]
#[verifier::spinoff_prover]
proof fn lemma_encode_index_slices(a: AdaptrixFlatAsset)
    ensures
        forall|k: int|
            0 <= k < a.meshlet_vertex_indices@.len() ==> spec_encode_asset(a).subrange(
                40 + 48 * a.clusters@.len() + 32 * a.vertices@.len() + 4 * k,
                40 + 48 * a.clusters@.len() + 32 * a.vertices@.len() + 4 * k + 4,
            ) == le32(#[trigger] a.meshlet_vertex_indices@[k]),
{
    lemma_encode_layout(a);
    let b = spec_encode_asset(a);
    let ib = indices_bytes(a.meshlet_vertex_indices@);
    let ioff = 40 + 48 * a.clusters@.len() as int + 32 * a.vertices@.len() as int;
    lemma_indices_bytes_len(a.meshlet_vertex_indices@);
    assert forall|k: int| 0 <= k < a.meshlet_vertex_indices@.len() implies b.subrange(
        ioff + 4 * k,
        ioff + 4 * k + 4,
    ) == le32(#[trigger] a.meshlet_vertex_indices@[k]) by {
        lemma_indices_bytes_slice(a.meshlet_vertex_indices@, k);
        lemma_slice_at(b, ioff, ib, 4 * k, 4 * k + 4);
    }
}

proof fn decode_identity_prelude(a: AdaptrixFlatAsset)
    ensures
        clusters_bytes(a.clusters@).len() == 48 * a.clusters@.len(),
        vertices_bytes(a.vertices@).len() == 32 * a.vertices@.len(),
        indices_bytes(a.meshlet_vertex_indices@).len() == 4 * a.meshlet_vertex_indices@.len(),
        header_bytes(a).len() == 40,
{
    lemma_clusters_bytes_len(a.clusters@);
    lemma_vertices_bytes_len(a.vertices@);
    lemma_indices_bytes_len(a.meshlet_vertex_indices@);
}

/// Round trip: whatever decodes from a serialized asset holds exactly the
/// arrays that were serialized.
pub proof fn lemma_decode_of_encode_is_identity(a: AdaptrixFlatAsset, out: AdaptrixFlatAsset)
    requires
        a.clusters@.len() <= u64::MAX,
        a.vertices@.len() <= u64::MAX,
        a.meshlet_vertex_indices@.len() <= u64::MAX,
        a.meshlet_primitive_indices@.len() <= u64::MAX,
        decoded_from(out, spec_encode_asset(a)),
    ensures
        out.clusters@ == a.clusters@,
        out.vertices@ == a.vertices@,
        out.meshlet_vertex_indices@ == a.meshlet_vertex_indices@,
        out.meshlet_primitive_indices@ == a.meshlet_primitive_indices@,
{
    decode_identity_clusters(a, out);
    decode_identity_vertices(a, out);
    decode_identity_indices(a, out);
    decode_identity_prims(a, out);
}

#[verifier::rlimit(100)]
#[verifier::spinoff_prover]
proof fn decode_identity_clusters(a: AdaptrixFlatAsset, out: AdaptrixFlatAsset)
    requires
        a.clusters@.len() <= u64::MAX,
        a.vertices@.len() <= u64::MAX,
        a.meshlet_vertex_indices@.len() <= u64::MAX,
        a.meshlet_primitive_indices@.len() <= u64::MAX,
        decoded_from(out, spec_encode_asset(a)),
    ensures
        out.clusters@ == a.clusters@,
{
    decode_identity_prelude(a);
    lemma_encode_asset_parses(a);
    let b = spec_encode_asset(a);
    let cb = clusters_bytes(a.clusters@);
    let nc = a.clusters@.len() as int;
    lemma_encode_layout(a);
    assert(out.clusters@ =~= a.clusters@) by {
        assert forall|k: int| 0 <= k < nc implies out.clusters@[k] == a.clusters@[k] by {
            lemma_clusters_bytes_slice(a.clusters@, k);
            lemma_slice_at(b, 40, cb, 48 * k, 48 * k + 48);
            lemma_cluster_bytes_injective(out.clusters@[k], a.clusters@[k]);
        }
    }
}

#[verifier::rlimit(100)]
#[verifier::spinoff_prover]
proof fn decode_identity_vertices(a: AdaptrixFlatAsset, out: AdaptrixFlatAsset)
    requires
        a.clusters@.len() <= u64::MAX,
        a.vertices@.len() <= u64::MAX,
        a.meshlet_vertex_indices@.len() <= u64::MAX,
        a.meshlet_primitive_indices@.len() <= u64::MAX,
        decoded_from(out, spec_encode_asset(a)),
    ensures
        out.vertices@ == a.vertices@,
{
    decode_identity_prelude(a);
    lemma_encode_asset_parses(a);
    lemma_encode_vertex_slices(a);
    let nv = a.vertices@.len() as int;
    assert(out.vertices@ =~= a.vertices@) by {
        assert forall|k: int| 0 <= k < nv implies out.vertices@[k] == a.vertices@[k] by {
            lemma_vertex_bytes_injective(out.vertices@[k], a.vertices@[k]);
        }
    }
}

#[verifier::rlimit(100)]
#[verifier::spinoff_prover]
proof fn decode_identity_indices(a: AdaptrixFlatAsset, out: AdaptrixFlatAsset)
    requires
        a.clusters@.len() <= u64::MAX,
        a.vertices@.len() <= u64::MAX,
        a.meshlet_vertex_indices@.len() <= u64::MAX,
        a.meshlet_primitive_indices@.len() <= u64::MAX,
        decoded_from(out, spec_encode_asset(a)),
    ensures
        out.meshlet_vertex_indices@ == a.meshlet_vertex_indices@,
{
    decode_identity_prelude(a);
    lemma_encode_asset_parses(a);
    lemma_encode_index_slices(a);
    let ni = a.meshlet_vertex_indices@.len() as int;
    assert(out.meshlet_vertex_indices@ =~= a.meshlet_vertex_indices@) by {
        assert forall|k: int| 0 <= k < ni implies out.meshlet_vertex_indices@[k]
            == a.meshlet_vertex_indices@[k] by {
            lemma_le32_injective(out.meshlet_vertex_indices@[k], a.meshlet_vertex_indices@[k]);
        }
    }
}

#[verifier::rlimit(100)]
#[verifier::spinoff_prover]
proof fn decode_identity_prims(a: AdaptrixFlatAsset, out: AdaptrixFlatAsset)
    requires
        a.clusters@.len() <= u64::MAX,
        a.vertices@.len() <= u64::MAX,
        a.meshlet_vertex_indices@.len() <= u64::MAX,
        a.meshlet_primitive_indices@.len() <= u64::MAX,
        decoded_from(out, spec_encode_asset(a)),
    ensures
        out.meshlet_primitive_indices@ == a.meshlet_primitive_indices@,
{
    decode_identity_prelude(a);
    lemma_encode_asset_parses(a);
    let b = spec_encode_asset(a);
    let pb = a.meshlet_primitive_indices@;
    let poff = 40 + 48 * a.clusters@.len() as int + 32 * a.vertices@.len() as int + 4
        * a.meshlet_vertex_indices@.len() as int;
    let np = a.meshlet_primitive_indices@.len() as int;
    lemma_encode_layout(a);
    lemma_slice_at(b, poff, pb, 0, np);
    assert(pb.subrange(0, np) =~= pb);
    assert(out.meshlet_primitive_indices@ =~= a.meshlet_primitive_indices@);
}

} // verus!
