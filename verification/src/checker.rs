//! Post-build verification: decides whether a flat asset satisfies the
//! cluster-graph invariants (slices in bounds, local indices below the
//! cluster's vertex count, global indices below the vertex count, error
//! pairs strictly ordered, records monotonically appended).

use vstd::prelude::*;
use crate::error::ProcessError;
use crate::types::{
    AdaptrixFlatAsset, ClusterPacked, asset_wf, cluster_wf, clusters_monotone,
    cluster_slices_in_bounds, cluster_local_indices_ok, cluster_global_indices_ok,
    cluster_errors_ok, vertex_count_of, triangle_count_of, unpack_vertex_count,
    unpack_triangle_count,
};
use crate::INFINITY_BITS;

verus! {

/// Decides `cluster_wf` for one record at run time.
fn check_cluster(a: &AdaptrixFlatAsset, i: usize) -> (b: bool)
    requires
        i < a.clusters@.len(),
    ensures
        b == cluster_wf(
            a.clusters@[i as int],
            a.meshlet_vertex_indices@,
            a.meshlet_primitive_indices@,
            a.vertices@.len() as int,
        ),
{
    let c = a.clusters[i];
    let vc = unpack_vertex_count(c.counts) as usize;
    let tc = unpack_triangle_count(c.counts) as usize;
    let v_len = a.meshlet_vertex_indices.len();
    let p_len = a.meshlet_primitive_indices.len();
    if c.vertex_offset as usize > v_len || vc > v_len - c.vertex_offset as usize {
        return false;
    }
    if c.triangle_offset as usize > p_len || 3 * tc > p_len - c.triangle_offset as usize {
        return false;
    }
    let t_start = c.triangle_offset as usize;
    let mut t: usize = 0;
    while t < 3 * tc
        invariant
            t <= 3 * tc,
            3 * tc == 3 * triangle_count_of(a.clusters@[i as int].counts),
            vc == vertex_count_of(a.clusters@[i as int].counts),
            t_start == a.clusters@[i as int].triangle_offset as int,
            t_start + 3 * tc <= a.meshlet_primitive_indices@.len(),
            a.meshlet_primitive_indices@.len() <= usize::MAX,
            forall|q: int|
                0 <= q < t ==> #[trigger] a.meshlet_primitive_indices@[t_start + q] < vc,
        decreases 3 * tc - t,
    {
        if a.meshlet_primitive_indices[t_start + t] as usize >= vc {
            return false;
        }
        t = t + 1;
    }
    let v_start = c.vertex_offset as usize;
    let nv = a.vertices.len();
    let mut v: usize = 0;
    while v < vc
        invariant
            v <= vc,
            vc == vertex_count_of(a.clusters@[i as int].counts),
            v_start == a.clusters@[i as int].vertex_offset as int,
            v_start + vc <= a.meshlet_vertex_indices@.len(),
            a.meshlet_vertex_indices@.len() <= usize::MAX,
            nv == a.vertices@.len(),
            forall|q: int|
                0 <= q < v ==> (#[trigger] a.meshlet_vertex_indices@[v_start + q] as int) < nv,
        decreases vc - v,
    {
        if a.meshlet_vertex_indices[v_start + v] as usize >= nv {
            return false;
        }
        v = v + 1;
    }
    if !(c.lod_error < INFINITY_BITS && c.parent_error <= INFINITY_BITS && c.lod_error
        < c.parent_error) {
        return false;
    }
    true
}

/// Verifies the whole asset: returns `Ok` exactly when every invariant
/// holds, and names the first offending cluster otherwise.
pub fn verify_asset(a: &AdaptrixFlatAsset) -> (r: Result<(), ProcessError>)
    ensures
        r is Ok <==> asset_wf(*a),
        r is Err ==> r->Err_0 is InvariantViolation,
{
    let n = a.clusters.len();
    let mut i: usize = 0;
    while i < n
        invariant
            i <= n,
            n == a.clusters@.len(),
            forall|q: int|
                0 <= q < i ==> cluster_wf(
                    #[trigger] a.clusters@[q],
                    a.meshlet_vertex_indices@,
                    a.meshlet_primitive_indices@,
                    a.vertices@.len() as int,
                ),
            forall|q: int|
                #![trigger a.clusters@[q], a.clusters@[q + 1]]
                0 <= q && q + 1 < i ==> {
                    &&& a.clusters@[q].vertex_offset + vertex_count_of(a.clusters@[q].counts)
                        <= a.clusters@[q + 1].vertex_offset
                    &&& a.clusters@[q].triangle_offset + 3 * triangle_count_of(
                        a.clusters@[q].counts,
                    ) <= a.clusters@[q + 1].triangle_offset
                },
        decreases n - i,
    {
        if !check_cluster(a, i) {
            return Err(ProcessError::InvariantViolation { level: 0, cluster: i });
        }
        if i > 0 {
            let c = a.clusters[i - 1];
            let d = a.clusters[i];
            let vc = unpack_vertex_count(c.counts);
            let tc = unpack_triangle_count(c.counts);
            if !(c.vertex_offset as u64 + vc as u64 <= d.vertex_offset as u64
                && c.triangle_offset as u64 + 3 * (tc as u64) <= d.triangle_offset as u64) {
                proof {
                    assert(!clusters_monotone(a.clusters@)) by {
                        if clusters_monotone(a.clusters@) {
                            assert(a.clusters@[i - 1].vertex_offset + vertex_count_of(
                                a.clusters@[i - 1].counts,
                            ) <= a.clusters@[(i - 1) + 1].vertex_offset && a.clusters@[i
                                - 1].triangle_offset + 3 * triangle_count_of(
                                a.clusters@[i - 1].counts,
                            ) <= a.clusters@[(i - 1) + 1].triangle_offset);
                            assert(a.clusters@[(i - 1) + 1] == a.clusters@[i as int]);
                        }
                    }
                }
                return Err(ProcessError::InvariantViolation { level: 0, cluster: i });
            }
        }
        i = i + 1;
    }
    Ok(())
}

} // verus!
