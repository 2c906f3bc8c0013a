//! The cluster store and the level-by-level build driver.
//!
//! The store is an append-only trio of growable arrays (cluster records,
//! meshlet vertex indices, meshlet primitive indices). Clusters are created
//! in strictly increasing global index order and never mutated afterwards,
//! except that `parent_error` is patched once when a coarser level is built
//! from them.

use vstd::prelude::*;
use crate::error::ProcessError;
use crate::types::{
    AdaptrixFlatAsset, AdaptrixVertex, ClusterPacked, asset_wf, cluster_wf, clusters_monotone,
    cluster_slices_in_bounds, cluster_local_indices_ok, cluster_global_indices_ok,
    cluster_errors_ok, vertex_count_of, triangle_count_of, pack_counts,
};
use crate::{INFINITY_BITS, MAX_CLUSTER_TRIANGLES, MAX_CLUSTER_VERTICES};

verus! {

/// One meshlet as the meshlet builder reports it: a table of vertex
/// indices, a flat list of triangle corner bytes into that table, and the
/// bounding sphere of its geometry (four float bit patterns).
pub struct MeshletData {
    pub vertices: Vec<u32>,
    pub triangles: Vec<u8>,
    pub center_radius: [u32; 4],
}

/// The meshlet respects the builder contract: bounded table sizes, whole
/// triangles, corner bytes inside the table, table entries inside the
/// vertex buffer it was cut from.
pub open spec fn meshlet_valid(m: MeshletData, vertex_bound: int) -> bool {
    &&& 1 <= m.vertices@.len() <= MAX_CLUSTER_VERTICES
    &&& m.triangles@.len() % 3 == 0
    &&& 3 <= m.triangles@.len() <= 3 * MAX_CLUSTER_TRIANGLES
    &&& forall|i: int|
        0 <= i < m.triangles@.len() ==> (#[trigger] m.triangles@[i] as int) < m.vertices@.len()
    &&& forall|i: int|
        0 <= i < m.vertices@.len() ==> (#[trigger] m.vertices@[i] as int) < vertex_bound
}

/// Decides `meshlet_valid` at run time.
pub fn check_meshlet(m: &MeshletData, vertex_bound: usize) -> (b: bool)
    ensures
        b == meshlet_valid(*m, vertex_bound as int),
{
    if m.vertices.len() < 1 || m.vertices.len() > MAX_CLUSTER_VERTICES as usize {
        return false;
    }
    if m.triangles.len() % 3 != 0 || m.triangles.len() < 3 || m.triangles.len() > 3
        * MAX_CLUSTER_TRIANGLES as usize {
        return false;
    }
    let mut i: usize = 0;
    while i < m.triangles.len()
        invariant
            i <= m.triangles@.len(),
            forall|t: int|
                0 <= t < i ==> (#[trigger] m.triangles@[t] as int) < m.vertices@.len(),
        decreases m.triangles@.len() - i,
    {
        if m.triangles[i] as usize >= m.vertices.len() {
            return false;
        }
        i = i + 1;
    }
    let mut j: usize = 0;
    while j < m.vertices.len()
        invariant
            j <= m.vertices@.len(),
            forall|t: int| 0 <= t < j ==> (#[trigger] m.vertices@[t] as int) < vertex_bound,
        decreases m.vertices@.len() - j,
    {
        if m.vertices[j] as usize >= vertex_bound {
            return false;
        }
        j = j + 1;
    }
    true
}

proof fn lemma_prefix_subrange<T>(older: Seq<T>, newer: Seq<T>, lo: int, hi: int)
    requires
        0 <= lo <= hi <= older.len(),
        newer.len() >= older.len(),
        newer.subrange(0, older.len() as int) == older,
    ensures
        newer.subrange(lo, hi) == older.subrange(lo, hi),
{
    assert forall|t: int| 0 <= t < hi - lo implies newer.subrange(lo, hi)[t] == older.subrange(
        lo,
        hi,
    )[t] by {
        assert(newer.subrange(0, older.len() as int)[lo + t] == newer[lo + t]);
    }
    assert(newer.subrange(lo, hi) =~= older.subrange(lo, hi));
}

/// The length of the primitive array after padding it to a 4-byte boundary.
pub open spec fn padded_len(n: int) -> int {
    n + ((4 - n % 4) % 4)
}

/// One group's simplification task: the member clusters, the group-local
/// vertex table (as global vertex ids, deduplicated on the quantized weld
/// grid), the welded index buffer over that table, and the largest own
/// error among the members.
pub struct GroupTask {
    pub cluster_indices: Vec<usize>,
    pub group_vertices: Vec<u32>,
    pub group_indices: Vec<u32>,
    pub max_child_error: u32,
}

/// No error bound ever grows past this pattern; it leaves room for the
/// strict bump below the infinity pattern.
pub const ERROR_CAP: u32 = 0x7F00_0000;

/// The error bound of a group's parents: the largest child error or the
/// simplifier's own estimate, whichever is larger, raised by one
/// representable step. The raise keeps the bound strictly above every
/// child's even when the simplifier reports zero; any formula that grows
/// strictly and tracks the true error serves here, and on the non-negative
/// bit patterns one step up is the smallest such raise.
pub open spec fn parent_error_bits(max_child_error: u32, simplifier_error: u32) -> int {
    (if max_child_error >= simplifier_error {
        max_child_error
    } else {
        simplifier_error
    }) + 1
}

/// Vertex-table entries of the first `k` meshlets together.
pub open spec fn total_meshlet_vertices(ms: Seq<MeshletData>, k: int) -> int
    decreases k,
{
    if k <= 0 {
        0
    } else {
        total_meshlet_vertices(ms, k - 1) + ms[k - 1].vertices@.len()
    }
}

/// Primitive bytes of the first `k` meshlets together, each block padded
/// to a 4-byte boundary.
pub open spec fn total_meshlet_prim_bytes(ms: Seq<MeshletData>, k: int) -> int
    decreases k,
{
    if k <= 0 {
        0
    } else {
        total_meshlet_prim_bytes(ms, k - 1) + padded_len(ms[k - 1].triangles@.len() as int)
    }
}

proof fn lemma_meshlet_totals_mono(ms: Seq<MeshletData>, a: int, b: int)
    requires
        0 <= a <= b,
    ensures
        total_meshlet_vertices(ms, a) <= total_meshlet_vertices(ms, b),
        total_meshlet_prim_bytes(ms, a) <= total_meshlet_prim_bytes(ms, b),
    decreases b - a,
{
    if a < b {
        lemma_meshlet_totals_mono(ms, a, b - 1);
    }
}

/// The triangle count of the listed stored clusters together.
pub open spec fn total_cluster_triangles(clusters: Seq<ClusterPacked>, members: Seq<usize>) -> int
    decreases members.len(),
{
    if members.len() == 0 {
        0
    } else {
        total_cluster_triangles(clusters, members.drop_last()) + triangle_count_of(
            clusters[members.last() as int].counts,
        )
    }
}

/// The pipeline keeps expanding while the level still shrinks: it stops
/// once a level has at most one cluster or a level would fail to get
/// smaller. The driver asks this before storing a level, so a stalled
/// level's parents are never appended and its children keep their
/// infinite parent error.
pub fn continue_loop(current_len: usize, next_len: usize) -> (b: bool)
    ensures
        b == (current_len > 1 && next_len < current_len),
{
    current_len > 1 && next_len < current_len
}

/// Whether the topology-preserving simplification failed to reduce enough
/// (kept 80 percent of the input or more) and the sloppy pass should run.
pub fn sloppy_fallback_needed(input_indices: usize, simplified_indices: usize) -> (b: bool)
    ensures
        b == (5 * (simplified_indices as int) >= 4 * (input_indices as int)),
{
    5 * (simplified_indices as u128) >= 4 * (input_indices as u128)
}

/// The simplification error threshold of a level: one hundredth at level
/// zero, doubling with every level (one step up in the exponent bits),
/// capped at the largest finite pattern.
pub fn error_threshold_bits(level: u32) -> (t: u32)
    ensures
        t == if level <= 134 {
            0x3C23_D70A + level * 0x0080_0000
        } else {
            0x7F7F_FFFF
        },
        t < INFINITY_BITS,
{
    if level <= 134 {
        0x3C23_D70A + level * 0x0080_0000
    } else {
        0x7F7F_FFFF
    }
}

/// The simplification goal of one group: half the input triangles on fine
/// levels, a quarter on coarse ones, never below one triangle.
pub open spec fn spec_simplification_target(input_triangles: int, level: u32) -> int {
    let reduced = if level < 3 {
        input_triangles / 2
    } else {
        input_triangles / 4
    };
    if reduced < 1 {
        1
    } else {
        reduced
    }
}

/// Computes the simplification goal of one group.
pub fn simplification_target(input_triangles: usize, level: u32) -> (t: usize)
    ensures
        t == spec_simplification_target(input_triangles as int, level),
        1 <= t,
{
    let reduced = if level < 3 {
        input_triangles / 2
    } else {
        input_triangles / 4
    };
    if reduced < 1 {
        1
    } else {
        reduced
    }
}

/// The target group size of a level: small for fine levels to preserve
/// locality, larger for coarse levels to help convergence.
pub open spec fn spec_group_size(level: u32) -> int {
    if level < 2 {
        8
    } else {
        12
    }
}

/// Computes the target group size of a level.
pub fn group_size_for_level(level: u32) -> (g: usize)
    ensures
        g == spec_group_size(level),
        1 <= g <= 12,
{
    if level < 2 {
        8
    } else {
        12
    }
}

/// Bit pattern of 1.0: the y component of the substitute normal.
pub const ONE_BITS: u32 = 0x3F80_0000;

/// Builds the vertex buffer from the loader's flat attribute arrays (all
/// carried as float bit patterns). Missing normals become (0, 1, 0) and
/// missing texture coordinates (0, 0). Fails exactly when the array
/// lengths disagree: positions must come in triples, normals (when
/// present) must match the positions, and texture coordinates (when
/// present) must come in pairs, one per vertex.
pub fn assemble_vertices(positions: &Vec<u32>, normals: &Vec<u32>, uvs: &Vec<u32>) -> (r: Result<
    Vec<AdaptrixVertex>,
    ProcessError,
>)
    ensures
        r is Ok <==> (positions@.len() % 3 == 0 && (normals@.len() == 0 || normals@.len()
            == positions@.len()) && (uvs@.len() == 0 || 3 * uvs@.len() == 2 * positions@.len())),
        match r {
            Ok(verts) => {
                &&& 3 * verts@.len() == positions@.len()
                &&& forall|i: int|
                    0 <= i < verts@.len() ==> {
                        let v = #[trigger] verts@[i];
                        &&& v.position[0] == positions@[3 * i]
                        &&& v.position[1] == positions@[3 * i + 1]
                        &&& v.position[2] == positions@[3 * i + 2]
                        &&& v.normal[0] == (if normals@.len() == 0 {
                            0u32
                        } else {
                            normals@[3 * i]
                        })
                        &&& v.normal[1] == (if normals@.len() == 0 {
                            ONE_BITS
                        } else {
                            normals@[3 * i + 1]
                        })
                        &&& v.normal[2] == (if normals@.len() == 0 {
                            0u32
                        } else {
                            normals@[3 * i + 2]
                        })
                        &&& v.uv[0] == (if uvs@.len() == 0 {
                            0u32
                        } else {
                            uvs@[2 * i]
                        })
                        &&& v.uv[1] == (if uvs@.len() == 0 {
                            0u32
                        } else {
                            uvs@[2 * i + 1]
                        })
                    }
            },
            Err(e) => e is InputMalformed,
        },
{
    if positions.len() % 3 != 0 {
        return Err(ProcessError::InputMalformed { value: positions.len(), bound: 3 });
    }
    let n = positions.len() / 3;
    if normals.len() != 0 && normals.len() != positions.len() {
        return Err(
            ProcessError::InputMalformed { value: normals.len(), bound: positions.len() },
        );
    }
    if uvs.len() != 0 && uvs.len() != 2 * n {
        return Err(ProcessError::InputMalformed { value: uvs.len(), bound: 2 * n });
    }
    let mut verts: Vec<AdaptrixVertex> = Vec::new();
    let mut i: usize = 0;
    while i < n
        invariant
            i <= n,
            3 * n == positions@.len(),
            positions@.len() <= usize::MAX,
            normals@.len() == 0 || normals@.len() == positions@.len(),
            uvs@.len() == 0 || uvs@.len() == 2 * n,
            verts@.len() == i,
            forall|t: int|
                0 <= t < i ==> {
                    let v = #[trigger] verts@[t];
                    &&& v.position[0] == positions@[3 * t]
                    &&& v.position[1] == positions@[3 * t + 1]
                    &&& v.position[2] == positions@[3 * t + 2]
                    &&& v.normal[0] == (if normals@.len() == 0 {
                        0u32
                    } else {
                        normals@[3 * t]
                    })
                    &&& v.normal[1] == (if normals@.len() == 0 {
                        ONE_BITS
                    } else {
                        normals@[3 * t + 1]
                    })
                    &&& v.normal[2] == (if normals@.len() == 0 {
                        0u32
                    } else {
                        normals@[3 * t + 2]
                    })
                    &&& v.uv[0] == (if uvs@.len() == 0 {
                        0u32
                    } else {
                        uvs@[2 * t]
                    })
                    &&& v.uv[1] == (if uvs@.len() == 0 {
                        0u32
                    } else {
                        uvs@[2 * t + 1]
                    })
                },
        decreases n - i,
    {
        let position = [positions[3 * i], positions[3 * i + 1], positions[3 * i + 2]];
        let normal = if normals.len() != 0 {
            [normals[3 * i], normals[3 * i + 1], normals[3 * i + 2]]
        } else {
            [0u32, ONE_BITS, 0u32]
        };
        let uv = if uvs.len() != 0 {
            [uvs[2 * i], uvs[2 * i + 1]]
        } else {
            [0u32, 0u32]
        };
        verts.push(AdaptrixVertex { position, normal, uv });
        i = i + 1;
    }
    Ok(verts)
}

/// Builds the cluster hierarchy: owns the vertex buffer and the append-only
/// global arrays that all clusters across all levels share.
pub struct NaniteBuilder {
    pub vertices: Vec<AdaptrixVertex>,
    pub clusters: Vec<ClusterPacked>,
    pub meshlet_vertex_indices: Vec<u32>,
    pub meshlet_primitive_indices: Vec<u8>,
}

/// Exactly the inputs `finish_group` stores: the error bounds are within
/// the cap, every child is a stored cluster that is still unpatched and
/// whose own error the task's bound dominates, every meshlet is valid
/// against the group table and resolves to stored vertices, and the two
/// flat arrays have room for the batch within the 32-bit offsets.
pub open spec fn finish_group_accepts(
    b: NaniteBuilder,
    task: GroupTask,
    meshlets: Seq<MeshletData>,
    simplifier_error: u32,
) -> bool {
    &&& simplifier_error <= ERROR_CAP
    &&& task.max_child_error <= ERROR_CAP
    &&& forall|k: int|
        0 <= k < task.cluster_indices@.len() ==> {
            let ch = (#[trigger] task.cluster_indices@[k]) as int;
            &&& ch < b.clusters@.len()
            &&& b.clusters@[ch].parent_error == INFINITY_BITS
            &&& b.clusters@[ch].lod_error <= task.max_child_error
        }
    &&& forall|k: int|
        0 <= k < meshlets.len() ==> meshlet_valid(
            #[trigger] meshlets[k],
            task.group_vertices@.len() as int,
        )
    &&& forall|k: int, j: int|
        0 <= k < meshlets.len() && 0 <= j < meshlets[k].vertices@.len() ==> (
        task.group_vertices@[(#[trigger] meshlets[k].vertices@[j]) as int] as int)
            < b.vertices@.len()
    &&& b.meshlet_vertex_indices@.len() + total_meshlet_vertices(meshlets, meshlets.len() as int)
        <= u32::MAX
    &&& b.meshlet_primitive_indices@.len() + total_meshlet_prim_bytes(
        meshlets,
        meshlets.len() as int,
    ) <= u32::MAX
}

/// A well-formed group task against the store and the level's id list:
/// members come from the level and are stored clusters whose own errors
/// the task's `max_child_error` dominates; the welded index buffer is
/// whole triangles over the group table; the table names stored vertices
/// and holds no two vertices on the same quantized grid cell.
pub open spec fn task_wf(task: GroupTask, b: NaniteBuilder, current: Seq<usize>) -> bool {
    &&& 1 <= task.cluster_indices@.len()
    &&& forall|k: int|
        0 <= k < task.cluster_indices@.len() ==> current.contains(
            #[trigger] task.cluster_indices@[k],
        )
    &&& forall|k: int|
        0 <= k < task.cluster_indices@.len() ==> (#[trigger] task.cluster_indices@[k] as int)
            < b.clusters@.len()
    &&& forall|k: int|
        0 <= k < task.cluster_indices@.len()
            ==> b.clusters@[#[trigger] task.cluster_indices@[k] as int].lod_error
            <= task.max_child_error
    &&& task.max_child_error < INFINITY_BITS
    &&& task.group_indices@.len() % 3 == 0
    &&& task.group_indices@.len() == 3 * total_cluster_triangles(
        b.clusters@,
        task.cluster_indices@,
    )
    &&& forall|i: int|
        0 <= i < task.group_indices@.len() ==> (#[trigger] task.group_indices@[i] as int)
            < task.group_vertices@.len()
    &&& forall|j: int|
        0 <= j < task.group_vertices@.len() ==> (#[trigger] task.group_vertices@[j] as int)
            < b.vertices@.len()
    &&& task.group_vertices@.len() <= 0xFFFF_FFFF
    &&& forall|j1: int, j2: int|
        0 <= j1 < j2 < task.group_vertices@.len() ==> crate::welder::spec_quantized_key(
            b.vertices@[(#[trigger] task.group_vertices@[j1]) as int].position,
        ) != crate::welder::spec_quantized_key(
            b.vertices@[(#[trigger] task.group_vertices@[j2]) as int].position,
        )
}

/// The cluster stands in some task of the batch.
pub open spec fn in_some_task(tasks: Seq<GroupTask>, id: usize) -> bool {
    exists|g: int| 0 <= g < tasks.len() && (#[trigger] tasks[g].cluster_indices@).contains(id)
}

/// Every cluster of the level stands in some task of the batch.
pub open spec fn tasks_cover_level(tasks: Seq<GroupTask>, current: Seq<usize>) -> bool {
    forall|t: int| 0 <= t < current.len() ==> in_some_task(tasks, #[trigger] current[t])
}

/// The two stored clusters share a vertex: some entry of one's vertex
/// slice equals some entry of the other's.
pub open spec fn builder_clusters_share_vertex(b: NaniteBuilder, c1: usize, c2: usize) -> bool {
    exists|i1: int, i2: int|
        b.clusters@[c1 as int].vertex_offset <= i1 < b.clusters@[c1 as int].vertex_offset
            + vertex_count_of(b.clusters@[c1 as int].counts) && b.clusters@[c2 as int].vertex_offset
            <= i2 < b.clusters@[c2 as int].vertex_offset + vertex_count_of(
            b.clusters@[c2 as int].counts,
        ) && #[trigger] b.meshlet_vertex_indices@[i1] == #[trigger] b.meshlet_vertex_indices@[i2]
}

/// The member shares a vertex with one of the earlier listed members.
pub open spec fn chained_to_earlier(b: NaniteBuilder, members: Seq<usize>, k: int) -> bool {
    exists|k2: int| 0 <= k2 < k && builder_clusters_share_vertex(b, members[k2], members[k])
}

/// Every member of the task after the first shares a vertex with an
/// earlier member: the group grew connected through shared vertices.
pub open spec fn task_members_chained(b: NaniteBuilder, task: GroupTask) -> bool {
    forall|k: int|
        1 <= k < task.cluster_indices@.len() ==> #[trigger] chained_to_earlier(
            b,
            task.cluster_indices@,
            k,
        )
}


/// A group that is BFS-connected through the adjacency graph is chained
/// through shared vertices: adjacency is sound for vertex sharing, and the
/// offsets table mirrors the stored cluster records.
#[verifier::rlimit(100)]
#[verifier::spinoff_prover]
proof fn lemma_group_chain_to_shared_vertices(
    b: NaniteBuilder,
    adj: crate::partitioner::Adjacency,
    table: Seq<(u32, u32)>,
    num_clusters: int,
    group: crate::partitioner::ClusterGroup,
    members: Seq<usize>,
)
    requires
        crate::partitioner::group_connected(adj, group),
        members.len() == group.cluster_indices@.len(),
        forall|k: int|
            0 <= k < members.len() ==> #[trigger] members[k] == group.cluster_indices@[k] as usize,
        forall|k: int|
            0 <= k < group.cluster_indices@.len() ==> ((#[trigger] group.cluster_indices@[k]) as int)
                < num_clusters,
        table.len() == num_clusters,
        forall|c2: int|
            0 <= c2 < num_clusters ==> #[trigger] table[c2] == (
                b.clusters@[c2].vertex_offset,
                (vertex_count_of(b.clusters@[c2].counts) as u32),
            ),
        forall|c: u32, n: u32|
            (c as int) < num_clusters && #[trigger] crate::partitioner::in_nbrs(adj, c, n)
                ==> crate::partitioner::clusters_share_vertex(
                c,
                n,
                b.meshlet_vertex_indices@,
                table,
            ),
    ensures
        forall|k: int| 1 <= k < members.len() ==> #[trigger] chained_to_earlier(b, members, k),
{
    assert forall|k: int| 1 <= k < members.len() implies #[trigger] chained_to_earlier(
        b,
        members,
        k,
    ) by {
        assert(1 <= k < group.cluster_indices@.len());
        let k2 = choose|k2: int|
            0 <= k2 < k && crate::partitioner::in_nbrs(
                adj,
                group.cluster_indices@[k2],
                #[trigger] group.cluster_indices@[k],
            );
        let cu = group.cluster_indices@[k2];
        let nu = group.cluster_indices@[k];
        assert((cu as int) < num_clusters);
        assert(crate::partitioner::clusters_share_vertex(
            cu,
            nu,
            b.meshlet_vertex_indices@,
            table,
        ));
        let v = choose|v: u32|
            #[trigger] crate::partitioner::cluster_has_vertex(
                cu,
                v,
                b.meshlet_vertex_indices@,
                table,
            ) && crate::partitioner::cluster_has_vertex(nu, v, b.meshlet_vertex_indices@, table);
        let i1 = choose|i: int|
            table[cu as int].0 <= i < table[cu as int].0 + table[cu as int].1 && #[trigger]
            b.meshlet_vertex_indices@[i] == v;
        let i2 = choose|i: int|
            table[nu as int].0 <= i < table[nu as int].0 + table[nu as int].1 && #[trigger]
            b.meshlet_vertex_indices@[i] == v;
        assert(builder_clusters_share_vertex(b, cu as usize, nu as usize)) by {
            assert(b.meshlet_vertex_indices@[i1] == b.meshlet_vertex_indices@[i2]);
            assert(vertex_count_of(b.clusters@[cu as int].counts) < 256);
            assert(vertex_count_of(b.clusters@[nu as int].counts) < 256);
        }
        assert(members[k2] == cu as usize);
        assert(members[k] == nu as usize);
        assert(builder_clusters_share_vertex(b, members[k2], members[k]));
    }
}

/// No cluster stands in two tasks (nor twice in one task).
pub open spec fn tasks_disjoint(tasks: Seq<GroupTask>) -> bool {
    forall|g1: int, k1: int, g2: int, k2: int|
        0 <= g1 < tasks.len() && 0 <= k1 < tasks[g1].cluster_indices@.len() && 0 <= g2
            < tasks.len() && 0 <= k2 < tasks[g2].cluster_indices@.len() && (#[trigger]
        tasks[g1].cluster_indices@[k1]) == (#[trigger] tasks[g2].cluster_indices@[k2]) ==> (g1 == g2
            && k1 == k2)
}

impl NaniteBuilder {
    /// Every stored cluster is well-formed against the shared arrays, the
    /// records are monotonically appended, and the primitive array ends on
    /// a 4-byte boundary.
    pub open spec fn wf(self) -> bool {
        &&& forall|i: int|
            0 <= i < self.clusters@.len() ==> cluster_wf(
                #[trigger] self.clusters@[i],
                self.meshlet_vertex_indices@,
                self.meshlet_primitive_indices@,
                self.vertices@.len() as int,
            )
        &&& clusters_monotone(self.clusters@)
        &&& self.meshlet_primitive_indices@.len() % 4 == 0
    }

    /// Starts an empty store over a fixed vertex buffer.
    pub fn new(vertices: Vec<AdaptrixVertex>) -> (b: Self)
        ensures
            b.wf(),
            b.vertices == vertices,
            b.clusters@.len() == 0,
            b.meshlet_vertex_indices@.len() == 0,
            b.meshlet_primitive_indices@.len() == 0,
    {
        NaniteBuilder {
            vertices,
            clusters: Vec::new(),
            meshlet_vertex_indices: Vec::new(),
            meshlet_primitive_indices: Vec::new(),
        }
    }

    /// Appends one cluster: records the current tail offsets, extends the
    /// two flat arrays, pads the primitive array to a 4-byte boundary and
    /// returns the new cluster's global index. Fails only when an offset
    /// would no longer fit the 32-bit record fields.
    #[verifier::rlimit(60)]
    pub fn push_cluster(
        &mut self,
        local_verts: &Vec<u32>,
        local_tris: &Vec<u8>,
        center_radius: [u32; 4],
        lod_error: u32,
        parent_error: u32,
    ) -> (r: Result<usize, ProcessError>)
        requires
            old(self).wf(),
            local_verts@.len() <= 255,
            local_tris@.len() <= 3 * 255,
            local_tris@.len() % 3 == 0,
            forall|i: int|
                0 <= i < local_tris@.len() ==> #[trigger] local_tris@[i] < local_verts@.len(),
            forall|i: int|
                0 <= i < local_verts@.len() ==> #[trigger] local_verts@[i] < old(
                    self,
                ).vertices@.len(),
            lod_error < INFINITY_BITS,
            parent_error <= INFINITY_BITS,
            lod_error < parent_error,
        ensures
            final(self).wf(),
            final(self).vertices@ == old(self).vertices@,
            (old(self).meshlet_vertex_indices@.len() + local_verts@.len() <= u32::MAX as int
                && padded_len(old(self).meshlet_primitive_indices@.len() + local_tris@.len() as int)
                <= u32::MAX as int) ==> r is Ok,
            match r {
                Ok(idx) => {
                    &&& idx == old(self).clusters@.len()
                    &&& final(self).clusters@.len() == old(self).clusters@.len() + 1
                    &&& forall|i: int|
                        0 <= i < old(self).clusters@.len() ==> final(self).clusters@[i] == old(
                            self,
                        ).clusters@[i]
                    &&& {
                        let c = final(self).clusters@[idx as int];
                        &&& c.vertex_offset == old(self).meshlet_vertex_indices@.len()
                        &&& c.triangle_offset == old(self).meshlet_primitive_indices@.len()
                        &&& vertex_count_of(c.counts) == local_verts@.len()
                        &&& 3 * triangle_count_of(c.counts) == local_tris@.len()
                        &&& c.counts == local_verts@.len() + 256 * (local_tris@.len() / 3)
                        &&& c.lod_error == lod_error
                        &&& c.parent_error == parent_error
                        &&& c.center_radius == center_radius
                    }
                    &&& final(self).meshlet_vertex_indices@ == old(self).meshlet_vertex_indices@
                        + local_verts@
                    &&& final(self).meshlet_primitive_indices@.len() == padded_len(
                        old(self).meshlet_primitive_indices@.len() + local_tris@.len() as int,
                    )
                    &&& final(self).meshlet_primitive_indices@.subrange(
                        old(self).meshlet_primitive_indices@.len() as int,
                        old(self).meshlet_primitive_indices@.len() + local_tris@.len() as int,
                    ) == local_tris@
                    &&& final(self).meshlet_primitive_indices@.subrange(
                        0,
                        old(self).meshlet_primitive_indices@.len() as int,
                    ) == old(self).meshlet_primitive_indices@
                    &&& forall|k: int|
                        old(self).meshlet_primitive_indices@.len() + local_tris@.len() <= k
                            < final(self).meshlet_primitive_indices@.len()
                            ==> final(self).meshlet_primitive_indices@[k] == 0u8
                },
                Err(e) => {
                    &&& *final(self) == *old(self)
                    &&& e is InputMalformed
                    &&& (old(self).meshlet_vertex_indices@.len() + local_verts@.len()
                        > u32::MAX as int || padded_len(
                        old(self).meshlet_primitive_indices@.len() + local_tris@.len() as int,
                    ) > u32::MAX as int)
                },
            },
    {
        let v_offset_usize = self.meshlet_vertex_indices.len();
        let t_offset_usize = self.meshlet_primitive_indices.len();
        let max32 = u32::MAX as usize;
        if v_offset_usize > max32 || local_verts.len() > max32 - v_offset_usize {
            return Err(
                ProcessError::InputMalformed { value: v_offset_usize, bound: max32 },
            );
        }
        if t_offset_usize > max32 || local_tris.len() > max32 - t_offset_usize {
            return Err(
                ProcessError::InputMalformed { value: t_offset_usize, bound: max32 },
            );
        }
        let need = t_offset_usize + local_tris.len();
        let pad = (4 - need % 4) % 4;
        if pad > max32 - need {
            return Err(
                ProcessError::InputMalformed { value: t_offset_usize, bound: max32 },
            );
        }
        assert(need + pad == padded_len(
            old(self).meshlet_primitive_indices@.len() + local_tris@.len() as int,
        ));
        let v_offset = v_offset_usize as u32;
        let t_offset = t_offset_usize as u32;

        let ghost old_v = self.meshlet_vertex_indices@;
        let mut i: usize = 0;
        while i < local_verts.len()
            invariant
                i <= local_verts@.len(),
                self.meshlet_vertex_indices@ == old_v + local_verts@.take(i as int),
                self.clusters@ == old(self).clusters@,
                self.vertices@ == old(self).vertices@,
                self.meshlet_primitive_indices@ == old(self).meshlet_primitive_indices@,
            decreases local_verts@.len() - i,
        {
            self.meshlet_vertex_indices.push(local_verts[i]);
            i = i + 1;
        }
        proof {
            assert(local_verts@.take(local_verts@.len() as int) =~= local_verts@);
        }

        let ghost old_p = self.meshlet_primitive_indices@;
        let mut j: usize = 0;
        while j < local_tris.len()
            invariant
                j <= local_tris@.len(),
                self.meshlet_primitive_indices@ == old_p + local_tris@.take(j as int),
                self.clusters@ == old(self).clusters@,
                self.vertices@ == old(self).vertices@,
                self.meshlet_vertex_indices@ == old_v + local_verts@,
            decreases local_tris@.len() - j,
        {
            self.meshlet_primitive_indices.push(local_tris[j]);
            j = j + 1;
        }
        proof {
            assert(local_tris@.take(local_tris@.len() as int) =~= local_tris@);
            assert(self.meshlet_primitive_indices@.subrange(
                0,
                (old_p.len() + local_tris@.len()) as int,
            ) =~= old_p + local_tris@);
        }

        while self.meshlet_primitive_indices.len() % 4 != 0
            invariant
                self.meshlet_primitive_indices@.len() >= old_p.len() + local_tris@.len(),
                self.meshlet_primitive_indices@.len() <= padded_len(
                    old_p.len() + local_tris@.len() as int,
                ),
                self.meshlet_primitive_indices@.subrange(0, (old_p.len()
                    + local_tris@.len()) as int) == old_p + local_tris@,
                forall|k: int|
                    old_p.len() + local_tris@.len() <= k < self.meshlet_primitive_indices@.len()
                        ==> self.meshlet_primitive_indices@[k] == 0u8,
                self.clusters@ == old(self).clusters@,
                self.vertices@ == old(self).vertices@,
                self.meshlet_vertex_indices@ == old_v + local_verts@,
            decreases (4 - self.meshlet_primitive_indices@.len() % 4) % 4,
        {
            let ghost before = self.meshlet_primitive_indices@;
            self.meshlet_primitive_indices.push(0);
            proof {
                assert(self.meshlet_primitive_indices@.subrange(
                    0,
                    (old_p.len() + local_tris@.len()) as int,
                ) =~= before.subrange(0, (old_p.len() + local_tris@.len()) as int));
            }
        }

        let counts = pack_counts(local_verts.len() as u32, (local_tris.len() / 3) as u32);
        let cluster = ClusterPacked {
            center_radius,
            vertex_offset: v_offset,
            triangle_offset: t_offset,
            counts,
            lod_error,
            parent_error,
            _padding: [0u32; 3],
        };
        let idx = self.clusters.len();
        self.clusters.push(cluster);

        proof {
            let vv = self.meshlet_vertex_indices@;
            let pp = self.meshlet_primitive_indices@;
            let nv = self.vertices@.len() as int;
            let cs = self.clusters@;
            let c = cs[idx as int];
            assert(vv == old(self).meshlet_vertex_indices@ + local_verts@);
            assert forall|k: int| 0 <= k < local_tris@.len() implies pp[old_p.len() + k]
                == local_tris@[k] by {
                assert(pp.subrange(0, (old_p.len() + local_tris@.len()) as int)[old_p.len() + k]
                    == pp[old_p.len() + k]);
            }
            assert(pp.subrange(
                old_p.len() as int,
                (old_p.len() + local_tris@.len()) as int,
            ) =~= local_tris@);
            assert(pp.subrange(0, old_p.len() as int) =~= old_p) by {
                assert forall|k: int| 0 <= k < old_p.len() implies pp[k] == old_p[k] by {
                    assert(pp.subrange(0, (old_p.len() + local_tris@.len()) as int)[k] == pp[k]);
                }
            }
            assert(cluster_wf(c, vv, pp, nv)) by {
                let n = (old_p.len() + local_tris@.len()) as int;
                assert forall|k: int| 0 <= k < 3 * triangle_count_of(c.counts) implies #[trigger] pp[
                    c.triangle_offset + k] < vertex_count_of(c.counts) by {
                    assert(pp.subrange(0, n)[c.triangle_offset + k] == pp[c.triangle_offset + k]);
                    assert(pp[c.triangle_offset + k] == local_tris@[k]);
                }
                assert forall|k: int| 0 <= k < vertex_count_of(c.counts) implies #[trigger] vv[
                    c.vertex_offset + k] < nv by {
                    assert(vv[c.vertex_offset + k] == local_verts@[k]);
                }
            }
            assert forall|k: int| 0 <= k < idx as int implies cluster_wf(
                #[trigger] cs[k],
                vv,
                pp,
                nv,
            ) by {
                let oc = old(self).clusters@[k];
                assert(cluster_wf(oc, old(self).meshlet_vertex_indices@,
                    old(self).meshlet_primitive_indices@, nv));
                let n = (old_p.len() + local_tris@.len()) as int;
                assert forall|m: int| 0 <= m < 3 * triangle_count_of(oc.counts) implies #[trigger] pp[
                    oc.triangle_offset + m] < vertex_count_of(oc.counts) by {
                    assert(oc.triangle_offset + m < old(self).meshlet_primitive_indices@.len());
                    assert(pp.subrange(0, n)[oc.triangle_offset + m] == pp[oc.triangle_offset + m]);
                    assert(pp[oc.triangle_offset + m] == old(self).meshlet_primitive_indices@[
                        oc.triangle_offset + m]);
                }
                assert forall|m: int| 0 <= m < vertex_count_of(oc.counts) implies #[trigger] vv[
                    oc.vertex_offset + m] < nv by {
                    assert(vv[oc.vertex_offset + m] == old(self).meshlet_vertex_indices@[
                        oc.vertex_offset + m]);
                }
            }
            assert(clusters_monotone(cs)) by {
                let oldc = old(self).clusters@;
                assert forall|k: int|
                    #![trigger cs[k], cs[k + 1]]
                    0 <= k && k + 1 < cs.len() implies {
                    &&& cs[k].vertex_offset + vertex_count_of(cs[k].counts) <= cs[k
                        + 1].vertex_offset
                    &&& cs[k].triangle_offset + 3 * triangle_count_of(cs[k].counts) <= cs[k
                        + 1].triangle_offset
                } by {
                    assert(cs[k] == oldc[k]);
                    if k + 1 < idx as int {
                        assert(clusters_monotone(oldc));
                        assert(cs[k + 1] == oldc[k + 1]);
                        assert(oldc[k].vertex_offset + vertex_count_of(oldc[k].counts) <= oldc[k
                            + 1].vertex_offset);
                    } else {
                        let oc = oldc[k];
                        assert(cluster_wf(oc, old(self).meshlet_vertex_indices@,
                            old(self).meshlet_primitive_indices@,
                            old(self).vertices@.len() as int));
                        assert(oc.vertex_offset + vertex_count_of(oc.counts) <= old(
                            self,
                        ).meshlet_vertex_indices@.len());
                        assert(cs[k + 1] == c);
                    }
                }
            }
        }
        Ok(idx)
    }

    /// The cluster record at `id` stores exactly the meshlet `m`: the
    /// counts, bounding sphere and error pair match, and the global arrays
    /// hold the meshlet's tables at the record's offsets.
    pub open spec fn stores_meshlet(
        self,
        id: int,
        m: MeshletData,
        lod_error: u32,
        parent_error: u32,
    ) -> bool {
        let c = self.clusters@[id];
        &&& vertex_count_of(c.counts) == m.vertices@.len()
        &&& 3 * triangle_count_of(c.counts) == m.triangles@.len()
        &&& c.counts == m.vertices@.len() + 256 * (m.triangles@.len() / 3)
        &&& c.lod_error == lod_error
        &&& c.parent_error == parent_error
        &&& c.center_radius == m.center_radius
        &&& self.meshlet_vertex_indices@.subrange(
            c.vertex_offset as int,
            c.vertex_offset + m.vertices@.len(),
        ) == m.vertices@
        &&& self.meshlet_primitive_indices@.subrange(
            c.triangle_offset as int,
            c.triangle_offset + m.triangles@.len(),
        ) == m.triangles@
        &&& padded_len(c.triangle_offset + m.triangles@.len() as int)
            <= self.meshlet_primitive_indices@.len()
        &&& forall|b: int|
            c.triangle_offset + m.triangles@.len() <= b < padded_len(
                c.triangle_offset + m.triangles@.len() as int,
            ) ==> self.meshlet_primitive_indices@[b] == 0u8
    }

    /// Seeds the store with the level-0 clusters cut from the full mesh.
    ///
    /// Every meshlet is validated against the meshlet-builder contract
    /// (`LibraryFailure` otherwise); each valid batch is stored one record
    /// per meshlet, with zero own error and an infinite parent error, and
    /// the returned global indices are 0 up to the meshlet count.
    pub fn generate_level0(&mut self, meshlets: &Vec<MeshletData>) -> (r: Result<
        Vec<usize>,
        ProcessError,
    >)
        requires
            old(self).wf(),
            old(self).clusters@.len() == 0,
            old(self).meshlet_vertex_indices@.len() == 0,
            old(self).meshlet_primitive_indices@.len() == 0,
        ensures
            final(self).wf(),
            final(self).vertices@ == old(self).vertices@,
            (forall|k: int|
                0 <= k < meshlets@.len() ==> meshlet_valid(
                    #[trigger] meshlets@[k],
                    old(self).vertices@.len() as int,
                )) && meshlets@.len() <= 0x0080_0000 ==> r is Ok,
            match r {
                Ok(ids) => {
                    &&& ids@.len() == meshlets@.len()
                    &&& final(self).clusters@.len() == meshlets@.len()
                    &&& final(self).meshlet_vertex_indices@.len() == total_meshlet_vertices(
                        meshlets@,
                        meshlets@.len() as int,
                    )
                    &&& final(self).meshlet_primitive_indices@.len() == total_meshlet_prim_bytes(
                        meshlets@,
                        meshlets@.len() as int,
                    )
                    &&& forall|k: int| 0 <= k < ids@.len() ==> #[trigger] ids@[k] == k
                    &&& forall|k: int|
                        0 <= k < meshlets@.len() ==> meshlet_valid(
                            #[trigger] meshlets@[k],
                            old(self).vertices@.len() as int,
                        )
                    &&& forall|k: int|
                        0 <= k < meshlets@.len() ==> final(self).stores_meshlet(
                            k,
                            #[trigger] meshlets@[k],
                            0u32,
                            INFINITY_BITS,
                        )
                    &&& forall|k: int|
                        0 <= k < meshlets@.len() ==> crate::types::cluster_counts_bounded(
                            #[trigger] final(self).clusters@[k],
                        )
                },
                Err(e) => e is LibraryFailure || e is InputMalformed,
            },
    {
        let ghost nv = old(self).vertices@.len() as int;
        let mut ids: Vec<usize> = Vec::new();
        let mut k: usize = 0;
        while k < meshlets.len()
            invariant
                k <= meshlets@.len(),
                self.wf(),
                self.vertices@ == old(self).vertices@,
                self.clusters@.len() == k,
                ids@.len() == k,
                self.meshlet_vertex_indices@.len() <= 64 * k,
                self.meshlet_primitive_indices@.len() <= 376 * k,
                self.meshlet_vertex_indices@.len() == total_meshlet_vertices(meshlets@, k as int),
                self.meshlet_primitive_indices@.len() == total_meshlet_prim_bytes(
                    meshlets@,
                    k as int,
                ),
                forall|t: int| 0 <= t < k ==> #[trigger] ids@[t] == t,
                forall|t: int| 0 <= t < k ==> meshlet_valid(#[trigger] meshlets@[t], nv),
                forall|t: int|
                    0 <= t < k ==> self.stores_meshlet(t, #[trigger] meshlets@[t], 0u32,
                    INFINITY_BITS),
                nv == self.vertices@.len() as int,
            decreases meshlets@.len() - k,
        {
            let m = &meshlets[k];
            if !check_meshlet(m, self.vertices.len()) {
                return Err(
                    ProcessError::LibraryFailure { level: 0, value: k, bound: meshlets.len() },
                );
            }
            let ghost before = *self;
            proof {
                assert(total_meshlet_vertices(meshlets@, k + 1) == total_meshlet_vertices(
                    meshlets@,
                    k as int,
                ) + meshlets@[k as int].vertices@.len());
                assert(total_meshlet_prim_bytes(meshlets@, k + 1) == total_meshlet_prim_bytes(
                    meshlets@,
                    k as int,
                ) + padded_len(meshlets@[k as int].triangles@.len() as int));
                assert(padded_len(
                    self.meshlet_primitive_indices@.len() + meshlets@[k as int].triangles@.len() as int,
                ) == self.meshlet_primitive_indices@.len() + padded_len(
                    meshlets@[k as int].triangles@.len() as int,
                )) by {
                    assert(self.meshlet_primitive_indices@.len() % 4 == 0);
                }
            }
            let res = self.push_cluster(&m.vertices, &m.triangles, m.center_radius, 0u32,
                INFINITY_BITS);
            match res {
                Ok(idx) => {
                    ids.push(idx);
                    proof {
                        let vv = self.meshlet_vertex_indices@;
                        let pp = self.meshlet_primitive_indices@;
                        assert(vv.subrange(0, before.meshlet_vertex_indices@.len() as int)
                            =~= before.meshlet_vertex_indices@);
                        assert(vv.subrange(
                            before.meshlet_vertex_indices@.len() as int,
                            before.meshlet_vertex_indices@.len() + m.vertices@.len() as int,
                        ) =~= m.vertices@);
                        assert(self.stores_meshlet(k as int, meshlets@[k as int], 0u32,
                            INFINITY_BITS));
                        assert forall|t: int| 0 <= t < k implies self.stores_meshlet(
                            t,
                            #[trigger] meshlets@[t],
                            0u32,
                            INFINITY_BITS,
                        ) by {
                            let c = before.clusters@[t];
                            assert(self.clusters@[t] == c);
                            assert(cluster_slices_in_bounds(c,
                                before.meshlet_vertex_indices@.len() as int,
                                before.meshlet_primitive_indices@.len() as int));
                            lemma_prefix_subrange(before.meshlet_vertex_indices@, vv,
                                c.vertex_offset as int,
                                c.vertex_offset + meshlets@[t].vertices@.len() as int);
                            lemma_prefix_subrange(before.meshlet_primitive_indices@, pp,
                                c.triangle_offset as int,
                                c.triangle_offset + meshlets@[t].triangles@.len() as int);
                            assert forall|b: int|
                                c.triangle_offset + meshlets@[t].triangles@.len() <= b
                                    < padded_len(
                                    c.triangle_offset + meshlets@[t].triangles@.len() as int,
                                ) implies pp[b] == 0u8 by {
                                assert(b < before.meshlet_primitive_indices@.len());
                                assert(pp.subrange(
                                    0,
                                    before.meshlet_primitive_indices@.len() as int,
                                )[b] == pp[b]);
                                assert(before.meshlet_primitive_indices@[b] == 0u8);
                            }
                        }
                        assert(self.meshlet_primitive_indices@.len() <= 376 * (k + 1)) by {
                            assert(padded_len(before.meshlet_primitive_indices@.len()
                                + m.triangles@.len() as int) <= before.meshlet_primitive_indices@.len()
                                + m.triangles@.len() + 3);
                        }
                    }
                },
                Err(e) => {
                    return Err(e);
                },
            }
            k = k + 1;
        }
        proof {
            assert forall|t: int|
                0 <= t < meshlets@.len() implies crate::types::cluster_counts_bounded(
                #[trigger] self.clusters@[t],
            ) by {
                assert(self.stores_meshlet(t, meshlets@[t], 0u32, INFINITY_BITS));
                assert(meshlet_valid(meshlets@[t], nv));
            }
        }
        Ok(ids)
    }

    /// Collects the per-group simplification tasks for one level: builds
    /// the cluster adjacency of the level, partitions it into BFS-connected
    /// groups, and welds each group's triangles onto a deduplicated,
    /// quantized-grid vertex table.
    ///
    /// Succeeds exactly when the level ids are valid and the store is
    /// within the size limits of the adjacency builder. The tasks cover the
    /// level disjointly, stay within the level's group-size budget, carry
    /// one welded corner triple per member triangle, and chain their
    /// members through shared vertices.
    pub fn prepare_level(&self, current: &Vec<usize>, level: u32) -> (r: Result<
        Vec<GroupTask>,
        ProcessError,
    >)
        requires
            self.wf(),
        ensures
            r is Ok <==> (self.clusters@.len() <= 0x0040_0000 && current@.len() <= 0x0020_0000
                && self.meshlet_vertex_indices@.len() <= 0x2000_0000 && forall|t: int|
                0 <= t < current@.len() ==> (#[trigger] current@[t] as int) < self.clusters@.len()),
            match r {
                Ok(tasks) => {
                    &&& forall|g: int|
                        0 <= g < tasks@.len() ==> task_wf(#[trigger] tasks@[g], *self, current@)
                    &&& forall|g: int|
                        0 <= g < tasks@.len() ==> (#[trigger] tasks@[g]).cluster_indices@.len()
                            <= spec_group_size(level)
                    &&& forall|g: int|
                        0 <= g < tasks@.len() ==> task_members_chained(*self, #[trigger] tasks@[g])
                    &&& tasks_cover_level(tasks@, current@)
                    &&& tasks_disjoint(tasks@)
                },
                Err(e) => e is InputMalformed,
            },
    {
        let num_clusters = self.clusters.len();
        if num_clusters > 0x0040_0000 || current.len() > 0x0020_0000
            || self.meshlet_vertex_indices.len() > 0x2000_0000 {
            return Err(
                ProcessError::InputMalformed { value: num_clusters, bound: 0x0040_0000 },
            );
        }
        let mut ids_u32: Vec<u32> = Vec::new();
        let mut t: usize = 0;
        while t < current.len()
            invariant
                t <= current@.len(),
                num_clusters == self.clusters@.len(),
                self.clusters@.len() <= 0x0040_0000,
                ids_u32@.len() == t,
                forall|t2: int|
                    0 <= t2 < t ==> (#[trigger] current@[t2] as int) < self.clusters@.len(),
                forall|t2: int| 0 <= t2 < t ==> #[trigger] ids_u32@[t2] == current@[t2] as u32,
                forall|t2: int|
                    0 <= t2 < t ==> (#[trigger] ids_u32@[t2] as int) < self.clusters@.len(),
            decreases current@.len() - t,
        {
            let id = current[t];
            if id >= num_clusters {
                return Err(ProcessError::InputMalformed { value: id, bound: num_clusters });
            }
            ids_u32.push(id as u32);
            t = t + 1;
        }

        let mut table: Vec<(u32, u32)> = Vec::new();
        let mut c: usize = 0;
        while c < num_clusters
            invariant
                c <= num_clusters,
                num_clusters == self.clusters@.len(),
                self.wf(),
                table@.len() == c,
                forall|c2: int|
                    0 <= c2 < c ==> #[trigger] table@[c2] == (
                        self.clusters@[c2].vertex_offset,
                        (vertex_count_of(self.clusters@[c2].counts) as u32),
                    ),
                forall|c2: int|
                    0 <= c2 < c ==> (#[trigger] table@[c2]).0 + table@[c2].1
                        <= self.meshlet_vertex_indices@.len(),
                forall|c2: int| 0 <= c2 < c ==> (#[trigger] table@[c2]).1 <= 0x100,
            decreases num_clusters - c,
        {
            let rec = self.clusters[c];
            let vc = crate::types::unpack_vertex_count(rec.counts);
            proof {
                assert(cluster_wf(self.clusters@[c as int], self.meshlet_vertex_indices@,
                    self.meshlet_primitive_indices@, self.vertices@.len() as int));
            }
            table.push((rec.vertex_offset, vc));
            c = c + 1;
        }

        let adj = crate::partitioner::build_adjacency(
            num_clusters,
            &ids_u32,
            &self.meshlet_vertex_indices,
            &table,
        );
        let group_size = group_size_for_level(level);
        let groups = crate::partitioner::partition_clusters(
            num_clusters,
            &ids_u32,
            &adj,
            group_size,
        );

        let mut tasks: Vec<GroupTask> = Vec::new();
        let mut g: usize = 0;
        while g < groups.len()
            invariant
                g <= groups@.len(),
                self.wf(),
                num_clusters == self.clusters@.len(),
                num_clusters <= 0x0040_0000,
                current@.len() <= 0x0020_0000,
                ids_u32@.len() == current@.len(),
                forall|t2: int|
                    0 <= t2 < current@.len() ==> (#[trigger] current@[t2] as int)
                        < self.clusters@.len(),
                forall|t2: int|
                    0 <= t2 < current@.len() ==> #[trigger] ids_u32@[t2] == current@[t2] as u32,
                forall|gi: int, k: int|
                    0 <= gi < groups@.len() && 0 <= k < groups@[gi].cluster_indices@.len()
                        ==> ids_u32@.contains(#[trigger] groups@[gi].cluster_indices@[k]),
                forall|gi: int|
                    0 <= gi < groups@.len() ==> 1 <= (
                    #[trigger] groups@[gi].cluster_indices@).len() <= group_size,
                group_size <= 12,
                group_size == spec_group_size(level),
                forall|g2: int|
                    0 <= g2 < g ==> (#[trigger] tasks@[g2]).cluster_indices@.len() <= group_size,
                tasks@.len() == g,
                forall|g2: int| 0 <= g2 < g ==> task_wf(#[trigger] tasks@[g2], *self, current@),
                forall|g2: int|
                    0 <= g2 < g ==> (#[trigger] tasks@[g2]).cluster_indices@.len()
                        == groups@[g2].cluster_indices@.len(),
                forall|g2: int, k: int|
                    0 <= g2 < g && 0 <= k < tasks@[g2].cluster_indices@.len() ==> (#[trigger]
                    tasks@[g2].cluster_indices@[k]) == groups@[g2].cluster_indices@[k] as usize,
            decreases groups@.len() - g,
        {
            let group = &groups[g];
            let task = self.gather_group(group, current, &ids_u32);
            tasks.push(task);
            g = g + 1;
        }
        proof {
            let gs = groups@;
            let ts = tasks@;
            // group members are level ids, so the usize casts are faithful
            assert forall|g2: int, k: int|
                0 <= g2 < gs.len() && 0 <= k < gs[g2].cluster_indices@.len() implies (#[trigger]
            gs[g2].cluster_indices@[k] as int) < num_clusters as int by {
                assert(ids_u32@.contains(gs[g2].cluster_indices@[k]));
                let t = choose|t: int|
                    0 <= t < ids_u32@.len() && ids_u32@[t] == gs[g2].cluster_indices@[k];
                assert(ids_u32@[t] == current@[t] as u32);
            }
            assert(tasks_disjoint(ts)) by {
                assert forall|g1: int, k1: int, g2: int, k2: int|
                    0 <= g1 < ts.len() && 0 <= k1 < ts[g1].cluster_indices@.len() && 0 <= g2
                        < ts.len() && 0 <= k2 < ts[g2].cluster_indices@.len() && (#[trigger]
                    ts[g1].cluster_indices@[k1]) == (#[trigger] ts[g2].cluster_indices@[k2]) implies (
                    g1 == g2 && k1 == k2) by {
                    assert(ts[g1].cluster_indices@[k1] == gs[g1].cluster_indices@[k1] as usize);
                    assert(ts[g2].cluster_indices@[k2] == gs[g2].cluster_indices@[k2] as usize);
                    assert((gs[g1].cluster_indices@[k1] as int) < num_clusters as int);
                    assert((gs[g2].cluster_indices@[k2] as int) < num_clusters as int);
                    assert(gs[g1].cluster_indices@[k1] == gs[g2].cluster_indices@[k2]);
                }
            }
            assert forall|t: int| 0 <= t < current@.len() implies in_some_task(
                ts,
                #[trigger] current@[t],
            ) by {
                    assert(crate::partitioner::appears(gs, Seq::empty(), ids_u32@[t]));
                    let g2 = choose|g2: int|
                        0 <= g2 < gs.len() && (#[trigger] gs[g2].cluster_indices@).contains(
                            ids_u32@[t],
                        );
                    let k = choose|k: int|
                        0 <= k < gs[g2].cluster_indices@.len() && gs[g2].cluster_indices@[k]
                            == ids_u32@[t];
                    assert(ts[g2].cluster_indices@[k] == gs[g2].cluster_indices@[k] as usize);
                    assert(ids_u32@[t] == current@[t] as u32);
                    assert((current@[t] as int) < num_clusters as int);
                    assert(ts[g2].cluster_indices@[k] == current@[t]);
                    assert(ts[g2].cluster_indices@.contains(current@[t]));
            }
            assert(tasks_cover_level(ts, current@));
            assert forall|g2: int| 0 <= g2 < ts.len() implies task_members_chained(
                *self,
                #[trigger] ts[g2],
            ) by {
                lemma_group_chain_to_shared_vertices(
                    *self,
                    adj,
                    table@,
                    num_clusters as int,
                    gs[g2],
                    ts[g2].cluster_indices@,
                );
            }
        }
        Ok(tasks)
    }

    /// Welds one group's triangles onto a deduplicated, quantized-grid
    /// vertex table and records the largest member error.
    fn gather_group(
        &self,
        group: &crate::partitioner::ClusterGroup,
        current: &Vec<usize>,
        ids_u32: &Vec<u32>,
    ) -> (task: GroupTask)
        requires
            self.wf(),
            self.clusters@.len() <= 0x0040_0000,
            current@.len() <= 0x0020_0000,
            ids_u32@.len() == current@.len(),
            forall|t: int|
                0 <= t < current@.len() ==> (#[trigger] current@[t] as int) < self.clusters@.len(),
            forall|t: int|
                0 <= t < current@.len() ==> #[trigger] ids_u32@[t] == current@[t] as u32,
            1 <= group.cluster_indices@.len() <= 0x1000,
            forall|k: int|
                0 <= k < group.cluster_indices@.len() ==> ids_u32@.contains(
                    #[trigger] group.cluster_indices@[k],
                ),
        ensures
            task_wf(task, *self, current@),
            task.cluster_indices@.len() == group.cluster_indices@.len(),
            forall|k: int|
                0 <= k < task.cluster_indices@.len() ==> (#[trigger] task.cluster_indices@[k])
                    == group.cluster_indices@[k] as usize,
    {
        broadcast use vstd::std_specs::hash::group_hash_axioms;

        let mut members: Vec<usize> = Vec::new();
        let mut k: usize = 0;
        while k < group.cluster_indices.len()
            invariant
                k <= group.cluster_indices@.len(),
                self.clusters@.len() <= 0x0040_0000,
                ids_u32@.len() == current@.len(),
                forall|t: int|
                    0 <= t < current@.len() ==> (#[trigger] current@[t] as int)
                        < self.clusters@.len(),
                forall|t: int|
                    0 <= t < current@.len() ==> #[trigger] ids_u32@[t] == current@[t] as u32,
                forall|k2: int|
                    0 <= k2 < group.cluster_indices@.len() ==> ids_u32@.contains(
                        #[trigger] group.cluster_indices@[k2],
                    ),
                members@.len() == k,
                forall|k2: int|
                    0 <= k2 < k ==> current@.contains(#[trigger] members@[k2]) && (
                    members@[k2] as int) < self.clusters@.len(),
                forall|k2: int|
                    0 <= k2 < k ==> (#[trigger] members@[k2]) == group.cluster_indices@[k2] as usize,
            decreases group.cluster_indices@.len() - k,
        {
            let id32 = group.cluster_indices[k];
            proof {
                let t = choose|t: int| 0 <= t < ids_u32@.len() && ids_u32@[t] == id32;
                assert(current@[t] as u32 == id32);
                assert(current@[t] == id32 as usize);
                assert(current@.contains(id32 as usize));
            }
            members.push(id32 as usize);
            k = k + 1;
        }

        let p_total = self.meshlet_primitive_indices.len();
        let v_total = self.meshlet_vertex_indices.len();
        assert(p_total == self.meshlet_primitive_indices@.len());
        assert(v_total == self.meshlet_vertex_indices@.len());
        let mut map: std::collections::HashMap<u128, u32> = std::collections::HashMap::new();
        let mut group_vertices: Vec<u32> = Vec::new();
        let mut group_indices: Vec<u32> = Vec::new();
        let mut max_child_error: u32 = 0;
        let mut mk: usize = 0;
        while mk < members.len()
            invariant
                mk <= members@.len(),
                members@.len() <= 0x1000,
                self.meshlet_primitive_indices@.len() <= usize::MAX,
                self.meshlet_vertex_indices@.len() <= usize::MAX,
                self.wf(),
                vstd::std_specs::hash::obeys_key_model::<u128>(),
                vstd::std_specs::hash::builds_valid_hashers::<std::hash::RandomState>(),
                forall|k2: int|
                    0 <= k2 < members@.len() ==> current@.contains(#[trigger] members@[k2]) && (
                    members@[k2] as int) < self.clusters@.len(),
                max_child_error < INFINITY_BITS,
                forall|k2: int|
                    0 <= k2 < mk ==> self.clusters@[#[trigger] members@[k2] as int].lod_error
                        <= max_child_error,
                group_indices@.len() % 3 == 0,
                group_indices@.len() == 3 * total_cluster_triangles(
                    self.clusters@,
                    members@.take(mk as int),
                ),
                group_indices@.len() <= mk * 765,
                group_vertices@.len() <= group_indices@.len(),
                forall|i: int|
                    0 <= i < group_indices@.len() ==> (#[trigger] group_indices@[i] as int)
                        < group_vertices@.len(),
                forall|j: int|
                    0 <= j < group_vertices@.len() ==> (#[trigger] group_vertices@[j] as int)
                        < self.vertices@.len(),
                forall|key: u128|
                    map@.contains_key(key) ==> (#[trigger] map@[key] as int)
                        < group_vertices@.len() && crate::welder::spec_quantized_key(
                        self.vertices@[group_vertices@[map@[key] as int] as int].position,
                    ) == key as int,
                forall|j: int|
                    0 <= j < group_vertices@.len() ==> {
                        let key = crate::welder::spec_quantized_key(
                            self.vertices@[(#[trigger] group_vertices@[j]) as int].position,
                        );
                        map@.contains_key(key as u128) && map@[key as u128] == j as u32
                    },
            decreases members@.len() - mk,
        {
            let m = members[mk];
            let c = self.clusters[m];
            proof {
                assert(cluster_wf(self.clusters@[m as int], self.meshlet_vertex_indices@,
                    self.meshlet_primitive_indices@, self.vertices@.len() as int));
            }
            if c.lod_error > max_child_error {
                max_child_error = c.lod_error;
            }
            let tc = crate::types::unpack_triangle_count(c.counts);
            let tri_bytes = (tc as usize) * 3;
            let t_start = c.triangle_offset as usize;
            let v_start = c.vertex_offset as usize;
            let ghost gi_start = group_indices@.len();
            let mut i: usize = 0;
            while i < tri_bytes
                invariant
                    i <= tri_bytes,
                    tri_bytes == 3 * triangle_count_of(self.clusters@[m as int].counts),
                    tri_bytes <= 765,
                    c == self.clusters@[m as int],
                    t_start == c.triangle_offset as int,
                    v_start == c.vertex_offset as int,
                    c.triangle_offset + tri_bytes <= self.meshlet_primitive_indices@.len(),
                    c.vertex_offset + vertex_count_of(c.counts)
                        <= self.meshlet_vertex_indices@.len(),
                    self.meshlet_primitive_indices@.len() <= usize::MAX,
                    self.meshlet_vertex_indices@.len() <= usize::MAX,
                    (m as int) < self.clusters@.len(),
                    self.wf(),
                    vstd::std_specs::hash::obeys_key_model::<u128>(),
                    vstd::std_specs::hash::builds_valid_hashers::<std::hash::RandomState>(),
                    group_indices@.len() == gi_start + i,
                    gi_start % 3 == 0,
                    gi_start <= mk * 765,
                    mk < members@.len() <= 0x1000,
                    group_vertices@.len() <= group_indices@.len(),
                    forall|i2: int|
                        0 <= i2 < group_indices@.len() ==> (#[trigger] group_indices@[i2] as int)
                            < group_vertices@.len(),
                    forall|j: int|
                        0 <= j < group_vertices@.len() ==> (#[trigger] group_vertices@[j] as int)
                            < self.vertices@.len(),
                    forall|key: u128|
                        map@.contains_key(key) ==> (#[trigger] map@[key] as int)
                            < group_vertices@.len() && crate::welder::spec_quantized_key(
                            self.vertices@[group_vertices@[map@[key] as int] as int].position,
                        ) == key as int,
                    forall|j: int|
                        0 <= j < group_vertices@.len() ==> {
                            let key = crate::welder::spec_quantized_key(
                                self.vertices@[(#[trigger] group_vertices@[j]) as int].position,
                            );
                            map@.contains_key(key as u128) && map@[key as u128] == j as u32
                        },
                decreases tri_bytes - i,
            {
                proof {
                    assert(cluster_wf(self.clusters@[m as int], self.meshlet_vertex_indices@,
                        self.meshlet_primitive_indices@, self.vertices@.len() as int));
                    assert(self.meshlet_primitive_indices@[c.triangle_offset + i]
                        < vertex_count_of(c.counts));
                }
                let lv = self.meshlet_primitive_indices[t_start + i];
                proof {
                    assert(self.meshlet_vertex_indices@[c.vertex_offset + lv as int]
                        < self.vertices@.len());
                }
                let gvx = self.meshlet_vertex_indices[v_start + lv as usize];
                let v = self.vertices[gvx as usize];
                let key = crate::welder::quantized_key(v.position);
                let entry = map.get(&key);
                match entry {
                    Some(j) => {
                        let j = *j;
                        group_indices.push(j);
                    },
                    None => {
                        let j = group_vertices.len() as u32;
                        map.insert(key, j);
                        group_vertices.push(gvx);
                        group_indices.push(j);
                    },
                }
                i = i + 1;
            }
            proof {
                assert(members@.take(mk + 1).drop_last() =~= members@.take(mk as int));
                assert(members@.take(mk + 1).last() == members@[mk as int]);
            }
            mk = mk + 1;
        }

        proof {
            assert(members@.take(members@.len() as int) =~= members@);
            assert forall|j1: int, j2: int| 0 <= j1 < j2 < group_vertices@.len() implies
                crate::welder::spec_quantized_key(
                self.vertices@[(#[trigger] group_vertices@[j1]) as int].position,
            ) != crate::welder::spec_quantized_key(
                self.vertices@[(#[trigger] group_vertices@[j2]) as int].position,
            ) by {
                let k1 = crate::welder::spec_quantized_key(
                    self.vertices@[group_vertices@[j1] as int].position,
                );
                let k2 = crate::welder::spec_quantized_key(
                    self.vertices@[group_vertices@[j2] as int].position,
                );
                if k1 == k2 {
                    assert(map@[k1 as u128] == j1 as u32);
                    assert(map@[k2 as u128] == j2 as u32);
                }
            }
        }
        GroupTask { cluster_indices: members, group_vertices, group_indices, max_child_error }
    }

    /// Stores one group's simplification result: validates the reclustered
    /// meshlets against the group table, appends them as the group's parent
    /// clusters — each with the group's shared error bound as its own error
    /// and an infinite parent error — and then patches every child's
    /// `parent_error` from infinity to that same bound.
    ///
    /// Succeeds exactly on the inputs `finish_group_accepts` describes; all
    /// validation happens before the store is touched, so every error
    /// leaves the store unchanged.
    #[verifier::rlimit(100)]
    pub fn finish_group(
        &mut self,
        task: &GroupTask,
        meshlets: &Vec<MeshletData>,
        simplifier_error: u32,
        level: u32,
    ) -> (r: Result<Vec<usize>, ProcessError>)
        requires
            old(self).wf(),
        ensures
            final(self).wf(),
            final(self).vertices@ == old(self).vertices@,
            r is Ok <==> finish_group_accepts(*old(self), *task, meshlets@, simplifier_error),
            match r {
                Ok(ids) => {
                    let e_parent = parent_error_bits(task.max_child_error, simplifier_error);
                    &&& ids@.len() == meshlets@.len()
                    &&& final(self).clusters@.len() == old(self).clusters@.len() + meshlets@.len()
                    &&& final(self).meshlet_vertex_indices@.len() == old(
                        self,
                    ).meshlet_vertex_indices@.len() + total_meshlet_vertices(
                        meshlets@,
                        meshlets@.len() as int,
                    )
                    &&& final(self).meshlet_primitive_indices@.len() == old(
                        self,
                    ).meshlet_primitive_indices@.len() + total_meshlet_prim_bytes(
                        meshlets@,
                        meshlets@.len() as int,
                    )
                    &&& final(self).meshlet_vertex_indices@.subrange(
                        0,
                        old(self).meshlet_vertex_indices@.len() as int,
                    ) == old(self).meshlet_vertex_indices@
                    &&& final(self).meshlet_primitive_indices@.subrange(
                        0,
                        old(self).meshlet_primitive_indices@.len() as int,
                    ) == old(self).meshlet_primitive_indices@
                    &&& forall|k: int|
                        0 <= k < ids@.len() ==> #[trigger] ids@[k] == old(self).clusters@.len() + k
                    &&& forall|k: int|
                        0 <= k < meshlets@.len() ==> meshlet_valid(
                            #[trigger] meshlets@[k],
                            task.group_vertices@.len() as int,
                        )
                    &&& forall|k: int|
                        0 <= k < meshlets@.len() ==> {
                            let c = final(self).clusters@[old(self).clusters@.len() + k];
                            &&& vertex_count_of(c.counts) == (#[trigger] meshlets@[k]).vertices@.len()
                            &&& 3 * triangle_count_of(c.counts) == meshlets@[k].triangles@.len()
                            &&& c.counts == meshlets@[k].vertices@.len() + 256 * (
                            meshlets@[k].triangles@.len() / 3)
                            &&& c.lod_error == e_parent
                            &&& c.parent_error == INFINITY_BITS
                            &&& c.center_radius == meshlets@[k].center_radius
                            &&& forall|j: int|
                                0 <= j < meshlets@[k].vertices@.len()
                                    ==> final(self).meshlet_vertex_indices@[c.vertex_offset + j]
                                    == task.group_vertices@[(#[trigger] meshlets@[k].vertices@[j]) as int]
                            &&& final(self).meshlet_primitive_indices@.subrange(
                                c.triangle_offset as int,
                                c.triangle_offset + meshlets@[k].triangles@.len(),
                            ) == meshlets@[k].triangles@
                        }
                    &&& forall|k: int|
                        0 <= k < task.cluster_indices@.len() ==> {
                            let ch = (#[trigger] task.cluster_indices@[k]) as int;
                            &&& ch < old(self).clusters@.len()
                            &&& final(self).clusters@[ch].parent_error == e_parent
                            &&& final(self).clusters@[ch].lod_error == old(self).clusters@[ch].lod_error
                            &&& final(self).clusters@[ch].vertex_offset == old(self).clusters@[ch].vertex_offset
                            &&& final(self).clusters@[ch].triangle_offset == old(self).clusters@[ch].triangle_offset
                            &&& final(self).clusters@[ch].counts == old(self).clusters@[ch].counts
                            &&& final(self).clusters@[ch].center_radius == old(self).clusters@[ch].center_radius
                            &&& old(self).clusters@[ch].parent_error == INFINITY_BITS
                            &&& old(self).clusters@[ch].lod_error <= task.max_child_error
                        }
                    &&& forall|i: int|
                        0 <= i < old(self).clusters@.len() && !task.cluster_indices@.contains(
                            i as usize,
                        ) ==> final(self).clusters@[i] == old(self).clusters@[i]
                    &&& task.max_child_error <= ERROR_CAP
                    &&& simplifier_error <= ERROR_CAP
                },
                Err(e) => {
                    &&& *final(self) == *old(self)
                    &&& (e is LibraryFailure || e is InvariantViolation || e is InputMalformed)
                },
            },
    {
        let ghost old_self = *old(self);
        let v0 = self.meshlet_vertex_indices.len();
        let p0 = self.meshlet_primitive_indices.len();
        // Validate everything before touching the store.
        if simplifier_error > ERROR_CAP {
            return Err(
                ProcessError::LibraryFailure {
                    level,
                    value: simplifier_error as usize,
                    bound: ERROR_CAP as usize,
                },
            );
        }
        if task.max_child_error > ERROR_CAP {
            return Err(
                ProcessError::InvariantViolation { level, cluster: 0 },
            );
        }
        let n_old = self.clusters.len();
        let mut k: usize = 0;
        while k < task.cluster_indices.len()
            invariant
                k <= task.cluster_indices@.len(),
                n_old == self.clusters@.len(),
                self.wf(),
                *self == old_self,
                old_self == *old(self),
                forall|k2: int|
                    0 <= k2 < k ==> {
                        let ch = (#[trigger] task.cluster_indices@[k2]) as int;
                        &&& ch < self.clusters@.len()
                        &&& self.clusters@[ch].parent_error == INFINITY_BITS
                        &&& self.clusters@[ch].lod_error <= task.max_child_error
                    },
            decreases task.cluster_indices@.len() - k,
        {
            let ch = task.cluster_indices[k];
            if ch >= n_old {
                return Err(ProcessError::InvariantViolation { level, cluster: ch });
            }
            let rec = self.clusters[ch];
            if rec.parent_error != INFINITY_BITS || rec.lod_error > task.max_child_error {
                return Err(ProcessError::InvariantViolation { level, cluster: ch });
            }
            k = k + 1;
        }

        // Validate the meshlets and resolve their tables to global ids,
        // adding up the room the batch will take in the flat arrays.
        let mut mapped: Vec<Vec<u32>> = Vec::new();
        let mut tv: u128 = 0;
        let mut tp: u128 = 0;
        let mut mk: usize = 0;
        while mk < meshlets.len()
            invariant
                mk <= meshlets@.len(),
                self.wf(),
                *self == old_self,
                old_self == *old(self),
                mapped@.len() == mk,
                tv == total_meshlet_vertices(meshlets@, mk as int),
                tp == total_meshlet_prim_bytes(meshlets@, mk as int),
                tv <= 64 * mk,
                tp <= 376 * mk,
                forall|k2: int|
                    0 <= k2 < mk ==> meshlet_valid(
                        #[trigger] meshlets@[k2],
                        task.group_vertices@.len() as int,
                    ),
                forall|k2: int|
                    0 <= k2 < mk ==> (#[trigger] mapped@[k2])@.len()
                        == meshlets@[k2].vertices@.len(),
                forall|k2: int, j: int|
                    0 <= k2 < mk && 0 <= j < mapped@[k2]@.len() ==> (#[trigger] mapped@[k2]@[j])
                        == task.group_vertices@[meshlets@[k2].vertices@[j] as int],
                forall|k2: int, j: int|
                    0 <= k2 < mk && 0 <= j < mapped@[k2]@.len() ==> ((#[trigger] mapped@[k2]@[j]) as int)
                        < self.vertices@.len(),
            decreases meshlets@.len() - mk,
        {
            let m = &meshlets[mk];
            if !check_meshlet(m, task.group_vertices.len()) {
                return Err(
                    ProcessError::LibraryFailure { level, value: mk, bound: meshlets.len() },
                );
            }
            let mut row: Vec<u32> = Vec::new();
            let mut j: usize = 0;
            while j < m.vertices.len()
                invariant
                    j <= m.vertices@.len(),
                    self.wf(),
                    *self == old_self,
                    old_self == *old(self),
                    meshlet_valid(meshlets@[mk as int], task.group_vertices@.len() as int),
                    m == &meshlets@[mk as int],
                    (mk as int) < meshlets@.len(),
                    row@.len() == j,
                    forall|j2: int|
                        0 <= j2 < j ==> (#[trigger] row@[j2]) == task.group_vertices@[meshlets@[
                            mk as int
                        ].vertices@[j2] as int],
                    forall|j2: int|
                        0 <= j2 < j ==> ((#[trigger] row@[j2]) as int) < self.vertices@.len(),
                decreases m.vertices@.len() - j,
            {
                let local = m.vertices[j];
                let global = task.group_vertices[local as usize];
                if global as usize >= self.vertices.len() {
                    return Err(
                        ProcessError::LibraryFailure {
                            level,
                            value: global as usize,
                            bound: self.vertices.len(),
                        },
                    );
                }
                row.push(global);
                j = j + 1;
            }
            let t_len = m.triangles.len();
            let pad = (4 - t_len % 4) % 4;
            tv = tv + m.vertices.len() as u128;
            tp = tp + (t_len + pad) as u128;
            proof {
                assert(padded_len(meshlets@[mk as int].triangles@.len() as int) == t_len + pad);
                assert(total_meshlet_vertices(meshlets@, mk + 1) == total_meshlet_vertices(
                    meshlets@,
                    mk as int,
                ) + meshlets@[mk as int].vertices@.len());
                assert(total_meshlet_prim_bytes(meshlets@, mk + 1) == total_meshlet_prim_bytes(
                    meshlets@,
                    mk as int,
                ) + padded_len(meshlets@[mk as int].triangles@.len() as int));
            }
            mapped.push(row);
            mk = mk + 1;
        }

        // The batch must leave every offset within 32 bits.
        if v0 as u128 + tv > 0xFFFF_FFFFu128 {
            return Err(ProcessError::InputMalformed { value: v0, bound: 0xFFFF_FFFF });
        }
        if p0 as u128 + tp > 0xFFFF_FFFFu128 {
            return Err(ProcessError::InputMalformed { value: p0, bound: 0xFFFF_FFFF });
        }

        // The shared error bound of the group's parents.
        let base = if task.max_child_error >= simplifier_error {
            task.max_child_error
        } else {
            simplifier_error
        };
        let e_parent = base + 1;
        assert(e_parent == parent_error_bits(task.max_child_error, simplifier_error));
        assert(e_parent < INFINITY_BITS);

        // Append the parent clusters.
        proof {
            assert(self.meshlet_vertex_indices@.subrange(0, v0 as int)
                =~= old_self.meshlet_vertex_indices@);
            assert(self.meshlet_primitive_indices@.subrange(0, p0 as int)
                =~= old_self.meshlet_primitive_indices@);
        }
        let mut ids: Vec<usize> = Vec::new();
        let mut pk: usize = 0;
        while pk < meshlets.len()
            invariant
                pk <= meshlets@.len(),
                self.wf(),
                old_self == *old(self),
                self.vertices@ == old_self.vertices@,
                self.clusters@.len() == n_old + pk,
                n_old == old_self.clusters@.len(),
                v0 == old_self.meshlet_vertex_indices@.len(),
                p0 == old_self.meshlet_primitive_indices@.len(),
                self.meshlet_vertex_indices@.len() == v0 + total_meshlet_vertices(
                    meshlets@,
                    pk as int,
                ),
                self.meshlet_primitive_indices@.len() == p0 + total_meshlet_prim_bytes(
                    meshlets@,
                    pk as int,
                ),
                self.meshlet_vertex_indices@.subrange(0, v0 as int)
                    == old_self.meshlet_vertex_indices@,
                self.meshlet_primitive_indices@.subrange(0, p0 as int)
                    == old_self.meshlet_primitive_indices@,
                v0 + total_meshlet_vertices(meshlets@, meshlets@.len() as int) <= u32::MAX,
                p0 + total_meshlet_prim_bytes(meshlets@, meshlets@.len() as int) <= u32::MAX,
                ids@.len() == pk,
                e_parent == parent_error_bits(task.max_child_error, simplifier_error),
                e_parent < INFINITY_BITS,
                mapped@.len() == meshlets@.len(),
                forall|i: int| 0 <= i < n_old ==> self.clusters@[i] == old_self.clusters@[i],
                forall|k2: int|
                    0 <= k2 < meshlets@.len() ==> meshlet_valid(
                        #[trigger] meshlets@[k2],
                        task.group_vertices@.len() as int,
                    ),
                forall|k2: int|
                    0 <= k2 < meshlets@.len() ==> (#[trigger] mapped@[k2])@.len()
                        == meshlets@[k2].vertices@.len(),
                forall|k2: int, j: int|
                    0 <= k2 < meshlets@.len() && 0 <= j < mapped@[k2]@.len() ==> (
                    #[trigger] mapped@[k2]@[j]) == task.group_vertices@[meshlets@[k2].vertices@[j] as int],
                forall|k2: int, j: int|
                    0 <= k2 < meshlets@.len() && 0 <= j < mapped@[k2]@.len() ==> ((
                    #[trigger] mapped@[k2]@[j]) as int) < self.vertices@.len(),
                forall|t: int| 0 <= t < pk ==> #[trigger] ids@[t] == n_old + t,
                forall|t: int|
                    0 <= t < pk ==> {
                        let c = self.clusters@[n_old + t];
                        &&& vertex_count_of(c.counts) == (#[trigger] meshlets@[t]).vertices@.len()
                        &&& 3 * triangle_count_of(c.counts) == meshlets@[t].triangles@.len()
                        &&& c.counts == meshlets@[t].vertices@.len() + 256 * (
                        meshlets@[t].triangles@.len() / 3)
                        &&& c.lod_error == e_parent
                        &&& c.parent_error == INFINITY_BITS
                        &&& c.center_radius == meshlets@[t].center_radius
                        &&& forall|j: int|
                            0 <= j < meshlets@[t].vertices@.len()
                                ==> self.meshlet_vertex_indices@[c.vertex_offset + j]
                                == task.group_vertices@[(#[trigger] meshlets@[t].vertices@[j]) as int]
                        &&& self.meshlet_primitive_indices@.subrange(
                            c.triangle_offset as int,
                            c.triangle_offset + meshlets@[t].triangles@.len(),
                        ) == meshlets@[t].triangles@
                    },
            decreases meshlets@.len() - pk,
        {
            let m = &meshlets[pk];
            let row = &mapped[pk];
            let ghost before = *self;
            proof {
                lemma_meshlet_totals_mono(meshlets@, 0, pk as int);
                lemma_meshlet_totals_mono(meshlets@, pk + 1, meshlets@.len() as int);
                assert(total_meshlet_vertices(meshlets@, pk + 1) == total_meshlet_vertices(
                    meshlets@,
                    pk as int,
                ) + meshlets@[pk as int].vertices@.len());
                assert(total_meshlet_prim_bytes(meshlets@, pk + 1) == total_meshlet_prim_bytes(
                    meshlets@,
                    pk as int,
                ) + padded_len(meshlets@[pk as int].triangles@.len() as int));
                assert(padded_len(
                    self.meshlet_primitive_indices@.len() + meshlets@[pk as int].triangles@.len() as int,
                ) == self.meshlet_primitive_indices@.len() + padded_len(
                    meshlets@[pk as int].triangles@.len() as int,
                )) by {
                    assert(self.meshlet_primitive_indices@.len() % 4 == 0);
                }
            }
            let res = self.push_cluster(row, &m.triangles, m.center_radius, e_parent,
                INFINITY_BITS);
            match res {
                Ok(idx) => {
                    ids.push(idx);
                    proof {
                        let vv = self.meshlet_vertex_indices@;
                        let pp = self.meshlet_primitive_indices@;
                        assert(vv.subrange(0, before.meshlet_vertex_indices@.len() as int)
                            =~= before.meshlet_vertex_indices@);
                        lemma_prefix_subrange(before.meshlet_vertex_indices@, vv, 0, v0 as int);
                        lemma_prefix_subrange(before.meshlet_primitive_indices@, pp, 0, p0 as int);
                        assert forall|j: int| 0 <= j < meshlets@[pk as int].vertices@.len() implies
                            vv[self.clusters@[n_old + pk].vertex_offset + j] == task.group_vertices@[(
                            #[trigger] meshlets@[pk as int].vertices@[j]) as int] by {
                            assert(vv[before.meshlet_vertex_indices@.len() + j] == row@[j]);
                        }
                        assert forall|t: int| 0 <= t < pk + 1 implies {
                            let c = self.clusters@[n_old + t];
                            &&& vertex_count_of(c.counts) == (#[trigger] meshlets@[t]).vertices@.len()
                            &&& 3 * triangle_count_of(c.counts) == meshlets@[t].triangles@.len()
                            &&& c.counts == meshlets@[t].vertices@.len() + 256 * (
                            meshlets@[t].triangles@.len() / 3)
                            &&& c.lod_error == e_parent
                            &&& c.parent_error == INFINITY_BITS
                            &&& c.center_radius == meshlets@[t].center_radius
                            &&& forall|j: int|
                                0 <= j < meshlets@[t].vertices@.len()
                                    ==> self.meshlet_vertex_indices@[c.vertex_offset + j]
                                    == task.group_vertices@[(#[trigger] meshlets@[t].vertices@[j]) as int]
                            &&& self.meshlet_primitive_indices@.subrange(
                                c.triangle_offset as int,
                                c.triangle_offset + meshlets@[t].triangles@.len(),
                            ) == meshlets@[t].triangles@
                        } by {
                            if t < pk {
                                let c = before.clusters@[n_old + t];
                                assert(self.clusters@[n_old + t] == c);
                                assert(cluster_wf(c, before.meshlet_vertex_indices@,
                                    before.meshlet_primitive_indices@,
                                    before.vertices@.len() as int));
                                assert forall|j: int|
                                    0 <= j < meshlets@[t].vertices@.len() implies vv[c.vertex_offset
                                    + j] == task.group_vertices@[(#[trigger] meshlets@[t].vertices@[j]) as int] by {
                                    assert(vv[c.vertex_offset + j]
                                        == before.meshlet_vertex_indices@[c.vertex_offset + j]);
                                }
                                lemma_prefix_subrange(before.meshlet_primitive_indices@, pp,
                                    c.triangle_offset as int,
                                    c.triangle_offset + meshlets@[t].triangles@.len() as int);
                            } else {
                                let c = self.clusters@[n_old + t];
                                assert(3 * triangle_count_of(c.counts)
                                    == meshlets@[pk as int].triangles@.len());
                                assert(pp.subrange(
                                    c.triangle_offset as int,
                                    c.triangle_offset + meshlets@[pk as int].triangles@.len(),
                                ) == meshlets@[pk as int].triangles@);
                            }
                        }
                    }
                },
                Err(_) => {
                    // ruled out: the size pre-check reserved the room
                    proof {
                        assert(false);
                    }
                },
            }
            pk = pk + 1;
        }

        // Patch every child's parent error, strictly after the appends.
        let ghost snapshot = *self;
        let n_now = self.clusters.len();
        assert(n_now == self.clusters@.len());
        let mut ck: usize = 0;
        while ck < task.cluster_indices.len()
            invariant
                ck <= task.cluster_indices@.len(),
                self.wf(),
                snapshot.wf(),
                old_self == *old(self),
                snapshot.vertices@ == old_self.vertices@,
                self.clusters@.len() <= usize::MAX,
                self.vertices@ == snapshot.vertices@,
                self.clusters@.len() == snapshot.clusters@.len(),
                self.meshlet_vertex_indices@ == snapshot.meshlet_vertex_indices@,
                self.meshlet_primitive_indices@ == snapshot.meshlet_primitive_indices@,
                e_parent < INFINITY_BITS,
                forall|k2: int|
                    0 <= k2 < task.cluster_indices@.len() ==> {
                        let ch = (#[trigger] task.cluster_indices@[k2]) as int;
                        &&& ch < snapshot.clusters@.len()
                        &&& snapshot.clusters@[ch].parent_error == INFINITY_BITS
                        &&& snapshot.clusters@[ch].lod_error <= task.max_child_error
                        &&& task.max_child_error < e_parent
                    },
                forall|k2: int|
                    0 <= k2 < ck ==> {
                        let ch = (#[trigger] task.cluster_indices@[k2]) as int;
                        self.clusters@[ch] == ClusterPacked {
                            parent_error: e_parent,
                            ..snapshot.clusters@[ch]
                        }
                    },
                forall|i: int|
                    0 <= i < self.clusters@.len() && !task.cluster_indices@.take(
                        ck as int,
                    ).contains(i as usize) ==> self.clusters@[i] == snapshot.clusters@[i],
            decreases task.cluster_indices@.len() - ck,
        {
            let ch = task.cluster_indices[ck];
            proof {
                assert((task.cluster_indices@[ck as int] as int) < snapshot.clusters@.len());
            }
            let mut rec = self.clusters[ch];
            rec.parent_error = e_parent;
            self.clusters[ch] = rec;
            proof {
                assert(task.cluster_indices@.take(ck + 1) =~= task.cluster_indices@.take(
                    ck as int,
                ).push(task.cluster_indices@[ck as int]));
                assert forall|i: int|
                    0 <= i < self.clusters@.len() && !task.cluster_indices@.take(ck + 1).contains(
                        i as usize,
                    ) implies self.clusters@[i] == snapshot.clusters@[i] by {
                    assert(task.cluster_indices@.take(ck + 1)[ck as int] == ch);
                    assert(i as usize != ch);
                    if task.cluster_indices@.take(ck as int).contains(i as usize) {
                        let w = choose|w: int|
                            0 <= w < ck && #[trigger] task.cluster_indices@.take(ck as int)[w]
                                == i as usize;
                        assert(task.cluster_indices@.take(ck + 1)[w] == i as usize);
                        assert(false);
                    }
                }
                assert forall|k2: int| 0 <= k2 < ck + 1 implies {
                    let ch2 = (#[trigger] task.cluster_indices@[k2]) as int;
                    self.clusters@[ch2] == ClusterPacked {
                        parent_error: e_parent,
                        ..snapshot.clusters@[ch2]
                    }
                } by {
                    let ch2 = task.cluster_indices@[k2] as int;
                    if ch2 == ch as int {
                        assert(snapshot.clusters@[ch2] == snapshot.clusters@[ch as int]);
                    }
                }
                assert forall|i: int| 0 <= i < self.clusters@.len() implies {
                    &&& (#[trigger] self.clusters@[i]).vertex_offset
                        == snapshot.clusters@[i].vertex_offset
                    &&& self.clusters@[i].triangle_offset == snapshot.clusters@[i].triangle_offset
                    &&& self.clusters@[i].counts == snapshot.clusters@[i].counts
                    &&& self.clusters@[i].lod_error == snapshot.clusters@[i].lod_error
                    &&& self.clusters@[i].parent_error == snapshot.clusters@[i].parent_error
                        || self.clusters@[i].parent_error == e_parent
                } by {
                    if task.cluster_indices@.take(ck + 1).contains(i as usize) {
                        let k2 = choose|k2: int|
                            0 <= k2 < ck + 1 && #[trigger] task.cluster_indices@.take(ck + 1)[k2]
                                == i as usize;
                        assert(task.cluster_indices@[k2] == i as usize);
                        assert(self.clusters@[i] == ClusterPacked {
                            parent_error: e_parent,
                            ..snapshot.clusters@[i]
                        });
                    } else {
                        assert(self.clusters@[i] == snapshot.clusters@[i]);
                    }
                }
                assert(self.wf()) by {
                    assert forall|i: int| 0 <= i < self.clusters@.len() implies cluster_wf(
                        #[trigger] self.clusters@[i],
                        self.meshlet_vertex_indices@,
                        self.meshlet_primitive_indices@,
                        self.vertices@.len() as int,
                    ) by {
                        assert(cluster_wf(snapshot.clusters@[i], snapshot.meshlet_vertex_indices@,
                            snapshot.meshlet_primitive_indices@,
                            snapshot.vertices@.len() as int));
                        assert(cluster_errors_ok(self.clusters@[i])) by {
                            if self.clusters@[i].parent_error == e_parent {
                                if task.cluster_indices@.take(ck + 1).contains(i as usize) {
                                    let k2 = choose|k2: int|
                                        0 <= k2 < ck + 1 && #[trigger] task.cluster_indices@.take(
                                            ck + 1,
                                        )[k2] == i as usize;
                                    assert(task.cluster_indices@[k2] == i as usize);
                                    assert(snapshot.clusters@[i].lod_error
                                        <= task.max_child_error);
                                }
                            }
                        }
                        assert forall|t2: int|
                            0 <= t2 < 3 * triangle_count_of(self.clusters@[i].counts) implies
                            #[trigger] self.meshlet_primitive_indices@[self.clusters@[i].triangle_offset
                            + t2] < vertex_count_of(self.clusters@[i].counts) by {
                            assert(snapshot.meshlet_primitive_indices@[snapshot.clusters@[i].triangle_offset
                                + t2] < vertex_count_of(snapshot.clusters@[i].counts));
                        }
                        assert forall|t2: int|
                            0 <= t2 < vertex_count_of(self.clusters@[i].counts) implies
                            #[trigger] self.meshlet_vertex_indices@[self.clusters@[i].vertex_offset
                            + t2] < self.vertices@.len() by {
                            assert(snapshot.meshlet_vertex_indices@[snapshot.clusters@[i].vertex_offset
                                + t2] < snapshot.vertices@.len());
                        }
                    }
                    assert(clusters_monotone(self.clusters@)) by {
                        assert forall|i: int|
                            #![trigger self.clusters@[i], self.clusters@[i + 1]]
                            0 <= i && i + 1 < self.clusters@.len() implies {
                            &&& self.clusters@[i].vertex_offset + vertex_count_of(
                                self.clusters@[i].counts,
                            ) <= self.clusters@[i + 1].vertex_offset
                            &&& self.clusters@[i].triangle_offset + 3 * triangle_count_of(
                                self.clusters@[i].counts,
                            ) <= self.clusters@[i + 1].triangle_offset
                        } by {
                            assert(snapshot.clusters@[i].vertex_offset + vertex_count_of(
                                snapshot.clusters@[i].counts,
                            ) <= snapshot.clusters@[i + 1].vertex_offset);
                        }
                    }
                }
            }
            ck = ck + 1;
        }
        proof {
            assert(task.cluster_indices@.take(task.cluster_indices@.len() as int)
                =~= task.cluster_indices@);
            assert(finish_group_accepts(old_self, *task, meshlets@, simplifier_error)) by {
                assert forall|k2: int, j: int|
                    0 <= k2 < meshlets@.len() && 0 <= j < meshlets@[k2].vertices@.len() implies (
                task.group_vertices@[(#[trigger] meshlets@[k2].vertices@[j]) as int] as int)
                    < old_self.vertices@.len() by {
                    assert(mapped@[k2]@[j] == task.group_vertices@[meshlets@[k2].vertices@[j] as int]);
                    assert((mapped@[k2]@[j] as int) < old_self.vertices@.len());
                }
            }
        }
        Ok(ids)
    }

    /// Hands the finished arrays out as a flat asset. If the store was
    /// well-formed, so is the asset.
    pub fn into_flat_asset(self) -> (a: AdaptrixFlatAsset)
        ensures
            self.wf() ==> asset_wf(a),
            a.clusters == self.clusters,
            a.vertices == self.vertices,
            a.meshlet_vertex_indices == self.meshlet_vertex_indices,
            a.meshlet_primitive_indices == self.meshlet_primitive_indices,
    {
        AdaptrixFlatAsset {
            clusters: self.clusters,
            vertices: self.vertices,
            meshlet_vertex_indices: self.meshlet_vertex_indices,
            meshlet_primitive_indices: self.meshlet_primitive_indices,
        }
    }
}

} // verus!
