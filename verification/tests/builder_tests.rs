//! Store-level checks: offsets and padding of `push_cluster`, counts
//! packing, the post-build verifier, and a deliberately corrupted asset.

use lume::builder::{MeshletData, NaniteBuilder};
use lume::checker::verify_asset;
use lume::error::ProcessError;
use lume::types::{
    pack_counts, unpack_triangle_count, unpack_vertex_count, AdaptrixVertex,
};
use lume::{is_finite_error_bits, INFINITY_BITS};

fn flat_vertices(n: usize) -> Vec<AdaptrixVertex> {
    let mut out = Vec::new();
    for i in 0..n {
        out.push(AdaptrixVertex {
            position: [(i as f32).to_bits(), 0, 0],
            normal: [0, 1.0f32.to_bits(), 0],
            uv: [0, 0],
        });
    }
    out
}

#[test]
fn counts_pack_and_unpack() {
    let c = pack_counts(64, 124);
    assert_eq!(unpack_vertex_count(c), 64);
    assert_eq!(unpack_triangle_count(c), 124);
    assert_eq!(c, 64 | (124 << 8));
}

#[test]
fn push_cluster_records_offsets_and_pads() {
    let mut b = NaniteBuilder::new(flat_vertices(6));
    let id0 = b
        .push_cluster(&vec![0, 1, 2], &vec![0, 1, 2], [0; 4], 0, INFINITY_BITS)
        .unwrap();
    let id1 = b
        .push_cluster(&vec![3, 4, 5], &vec![0, 1, 2, 0, 2, 1], [0; 4], 0, INFINITY_BITS)
        .unwrap();
    assert_eq!(id0, 0);
    assert_eq!(id1, 1);
    let a = b.into_flat_asset();
    assert_eq!(a.clusters[0].vertex_offset, 0);
    assert_eq!(a.clusters[0].triangle_offset, 0);
    // three triangle bytes were padded to the next 4-byte boundary
    assert_eq!(a.clusters[1].vertex_offset, 3);
    assert_eq!(a.clusters[1].triangle_offset, 4);
    assert_eq!(a.meshlet_vertex_indices, vec![0, 1, 2, 3, 4, 5]);
    assert_eq!(a.meshlet_primitive_indices.len(), 12);
    assert_eq!(&a.meshlet_primitive_indices[0..4], &[0, 1, 2, 0]);
    assert!(verify_asset(&a).is_ok());
}

#[test]
fn corrupted_local_index_is_detected() {
    let mut b = NaniteBuilder::new(flat_vertices(3));
    b.push_cluster(&vec![0, 1, 2], &vec![0, 1, 2], [0; 4], 0, INFINITY_BITS).unwrap();
    let mut a = b.into_flat_asset();
    assert!(verify_asset(&a).is_ok());
    // point one primitive byte at the vertex count itself: out of range
    let vc = (a.clusters[0].counts & 0xFF) as u8;
    a.meshlet_primitive_indices[1] = vc;
    let err = verify_asset(&a).unwrap_err();
    assert!(matches!(err, ProcessError::InvariantViolation { .. }));
}

#[test]
fn corrupted_error_order_is_detected() {
    let mut b = NaniteBuilder::new(flat_vertices(3));
    b.push_cluster(&vec![0, 1, 2], &vec![0, 1, 2], [0; 4], 0, INFINITY_BITS).unwrap();
    let mut a = b.into_flat_asset();
    // an own error at the parent error: no longer strictly below
    a.clusters[0].lod_error = a.clusters[0].parent_error;
    assert!(verify_asset(&a).is_err());
}

#[test]
fn corrupted_global_index_is_detected() {
    let mut b = NaniteBuilder::new(flat_vertices(3));
    b.push_cluster(&vec![0, 1, 2], &vec![0, 1, 2], [0; 4], 0, INFINITY_BITS).unwrap();
    let mut a = b.into_flat_asset();
    a.meshlet_vertex_indices[0] = 3;
    assert!(verify_asset(&a).is_err());
}

#[test]
fn error_bit_patterns_order_like_floats() {
    // non-negative float order coincides with the unsigned bit order
    let values = [0.0f32, 0.001, 0.01, 0.5, 1.0, 1000.0];
    for w in values.windows(2) {
        assert!(w[0].to_bits() < w[1].to_bits());
    }
    assert!(values[5].to_bits() < f32::INFINITY.to_bits());
    assert_eq!(f32::INFINITY.to_bits(), INFINITY_BITS);
    assert!(is_finite_error_bits(1000.0f32.to_bits()));
    assert!(!is_finite_error_bits(INFINITY_BITS));
}

#[test]
fn finish_group_rejects_double_patch() {
    // a child whose parent error is already finite cannot be grouped again
    let mut b = NaniteBuilder::new(flat_vertices(3));
    b.push_cluster(&vec![0, 1, 2], &vec![0, 1, 2], [0; 4], 0, 0.5f32.to_bits()).unwrap();
    let current = vec![0usize];
    let tasks = b.prepare_level(&current, 0).unwrap();
    let parents = vec![MeshletData {
        vertices: vec![0, 1, 2],
        triangles: vec![0, 1, 2],
        center_radius: [0; 4],
    }];
    let r = b.finish_group(&tasks[0], &parents, 0, 1);
    assert!(matches!(r, Err(ProcessError::InvariantViolation { .. })));
}

#[test]
fn prepare_level_rejects_unknown_ids() {
    let b = NaniteBuilder::new(flat_vertices(3));
    let r = b.prepare_level(&vec![5usize], 0);
    assert!(matches!(r, Err(ProcessError::InputMalformed { .. })));
}
