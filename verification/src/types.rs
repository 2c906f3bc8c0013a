//! The data model of the cluster asset: vertices, packed cluster records,
//! the file header and the flat in-memory asset, together with the
//! well-formedness conditions that every built asset satisfies.

use vstd::prelude::*;
use crate::{finite_error_bits, valid_error_bits, MAX_CLUSTER_TRIANGLES, MAX_CLUSTER_VERTICES};

verus! {

/// A mesh vertex, 32 bytes on disk: position (3 floats), normal (3 floats),
/// texture coordinates (2 floats), each float carried as its IEEE-754 bit
/// pattern.
#[derive(Clone, Copy, Debug, PartialEq, Eq)]
pub struct AdaptrixVertex {
    pub position: [u32; 3],
    pub normal: [u32; 3],
    pub uv: [u32; 2],
}

/// A packed cluster record, 48 bytes on disk.
///
/// `counts` packs the vertex count in its low 8 bits and the triangle count
/// in the next 8 bits. `lod_error` is this cluster's own simplification
/// error and `parent_error` the error at which coarser parents replace it
/// (the infinity pattern until a coarser level is built); both are bit
/// patterns of non-negative floats, so their unsigned order is their
/// numeric order.
#[derive(Clone, Copy, Debug, PartialEq, Eq)]
pub struct ClusterPacked {
    /// Bounding sphere (center x, y, z and radius) as float bit patterns.
    pub center_radius: [u32; 4],
    /// Start of this cluster's slice of the meshlet-vertex-index array.
    pub vertex_offset: u32,
    /// Start (in bytes) of this cluster's slice of the primitive-index array.
    pub triangle_offset: u32,
    /// vertex_count | (triangle_count << 8).
    pub counts: u32,
    pub lod_error: u32,
    pub parent_error: u32,
    /// Explicit padding up to 48 bytes.
    pub _padding: [u32; 3],
}

/// The fixed-size file header of the LAD format, 40 bytes on disk.
#[derive(Clone, Copy, Debug, PartialEq, Eq)]
pub struct LadHeader {
    /// Always `LLAD`.
    pub magic: [u8; 4],
    /// Always 1.
    pub version: u32,
    pub num_clusters: u64,
    pub num_vertices: u64,
    pub num_v_indices: u64,
    pub num_p_indices: u64,
}

/// The fully built asset as owned arrays; its byte image is the file format.
#[derive(Clone, Debug, PartialEq, Eq)]
pub struct AdaptrixFlatAsset {
    pub clusters: Vec<ClusterPacked>,
    pub vertices: Vec<AdaptrixVertex>,
    /// For a cluster `c`, local vertex `i` names the global vertex
    /// `meshlet_vertex_indices[c.vertex_offset + i]`.
    pub meshlet_vertex_indices: Vec<u32>,
    /// Three bytes per triangle, each a cluster-local vertex index; every
    /// cluster's block is padded to a 4-byte boundary.
    pub meshlet_primitive_indices: Vec<u8>,
}

/// The vertex count packed into the low 8 bits of `counts`.
pub open spec fn vertex_count_of(counts: u32) -> int {
    (counts as int) % 256
}

/// The triangle count packed into bits 8 to 15 of `counts`.
pub open spec fn triangle_count_of(counts: u32) -> int {
    ((counts as int) / 256) % 256
}

/// Reads the vertex count out of a packed `counts` word.
pub fn unpack_vertex_count(counts: u32) -> (r: u32)
    ensures
        r == vertex_count_of(counts),
{
    counts % 256
}

/// Reads the triangle count out of a packed `counts` word.
pub fn unpack_triangle_count(counts: u32) -> (r: u32)
    ensures
        r == triangle_count_of(counts),
{
    (counts / 256) % 256
}

/// Packs a vertex count and a triangle count into one `counts` word; the
/// upper sixteen bits stay zero.
pub fn pack_counts(vertex_count: u32, triangle_count: u32) -> (r: u32)
    requires
        vertex_count < 256,
        triangle_count < 256,
    ensures
        r == vertex_count + 256 * triangle_count,
        vertex_count_of(r) == vertex_count,
        triangle_count_of(r) == triangle_count,
{
    vertex_count + triangle_count * 256
}

/// The cluster's two slices lie inside arrays of the given lengths.
pub open spec fn cluster_slices_in_bounds(c: ClusterPacked, v_len: int, p_len: int) -> bool {
    &&& c.vertex_offset + vertex_count_of(c.counts) <= v_len
    &&& c.triangle_offset + 3 * triangle_count_of(c.counts) <= p_len
}

/// Every byte in the cluster's primitive slice is a valid cluster-local
/// vertex index.
pub open spec fn cluster_local_indices_ok(c: ClusterPacked, prims: Seq<u8>) -> bool {
    forall|i: int|
        0 <= i < 3 * triangle_count_of(c.counts) ==> #[trigger] prims[c.triangle_offset
            + i] < vertex_count_of(c.counts)
}

/// Every entry in the cluster's vertex slice names a vertex of the global
/// vertex array.
pub open spec fn cluster_global_indices_ok(
    c: ClusterPacked,
    v_inds: Seq<u32>,
    num_vertices: int,
) -> bool {
    forall|i: int|
        0 <= i < vertex_count_of(c.counts) ==> #[trigger] v_inds[c.vertex_offset
            + i] < num_vertices
}

/// The error pair of a cluster is ordered: its own error is finite and
/// strictly below the error at which its parents take over.
pub open spec fn cluster_errors_ok(c: ClusterPacked) -> bool {
    &&& finite_error_bits(c.lod_error)
    &&& valid_error_bits(c.parent_error)
    &&& c.lod_error < c.parent_error
}

/// The cluster respects the hard size limits of the meshlet builder.
pub open spec fn cluster_counts_bounded(c: ClusterPacked) -> bool {
    &&& vertex_count_of(c.counts) <= MAX_CLUSTER_VERTICES
    &&& triangle_count_of(c.counts) <= MAX_CLUSTER_TRIANGLES
}

/// Clusters were appended monotonically: each record's slices end before the
/// next record's slices begin.
pub open spec fn clusters_monotone(cs: Seq<ClusterPacked>) -> bool {
    forall|i: int|
        #![trigger cs[i], cs[i + 1]]
        0 <= i && i + 1 < cs.len() ==> {
            &&& cs[i].vertex_offset + vertex_count_of(cs[i].counts) <= cs[i + 1].vertex_offset
            &&& cs[i].triangle_offset + 3 * triangle_count_of(cs[i].counts) <= cs[i
                + 1].triangle_offset
        }
}

/// One cluster record is well-formed against the three global arrays.
pub open spec fn cluster_wf(
    c: ClusterPacked,
    v_inds: Seq<u32>,
    prims: Seq<u8>,
    num_vertices: int,
) -> bool {
    &&& cluster_slices_in_bounds(c, v_inds.len() as int, prims.len() as int)
    &&& cluster_local_indices_ok(c, prims)
    &&& cluster_global_indices_ok(c, v_inds, num_vertices)
    &&& cluster_errors_ok(c)
}

/// The whole asset is well-formed: every cluster is, and the records are
/// monotonically appended.
pub open spec fn asset_wf(a: AdaptrixFlatAsset) -> bool {
    &&& forall|i: int|
        0 <= i < a.clusters@.len() ==> cluster_wf(
            #[trigger] a.clusters@[i],
            a.meshlet_vertex_indices@,
            a.meshlet_primitive_indices@,
            a.vertices@.len() as int,
        )
    &&& clusters_monotone(a.clusters@)
}

} // verus!
