//! End-to-end pipeline scenarios driven the way an application drives the
//! library: seed level 0 from meshlets, then alternate prepare / simplify /
//! finish until the level stops shrinking.

use lume::builder::{
    assemble_vertices, check_meshlet, continue_loop, error_threshold_bits, group_size_for_level,
    simplification_target, sloppy_fallback_needed, MeshletData, NaniteBuilder,
};
use lume::checker::verify_asset;
use lume::codec::encode_asset;
use lume::types::AdaptrixFlatAsset;
use lume::{INFINITY_BITS, MAX_CLUSTER_TRIANGLES, MAX_CLUSTER_VERTICES};

/// A deterministic greedy meshlet packer over indices alone: fills one
/// meshlet until the vertex or triangle budget is reached, then starts the
/// next. Stands in for the meshlet-builder library in tests.
fn pack_meshlets(indices: &[u32], max_v: usize, max_t: usize) -> Vec<MeshletData> {
    let mut out: Vec<MeshletData> = Vec::new();
    let mut verts: Vec<u32> = Vec::new();
    let mut tris: Vec<u8> = Vec::new();
    let mut tri = 0;
    while (tri + 1) * 3 <= indices.len() {
        let corners = [indices[tri * 3], indices[tri * 3 + 1], indices[tri * 3 + 2]];
        let mut new_needed = 0;
        for c in corners.iter() {
            if !verts.contains(c) {
                new_needed += 1;
            }
        }
        if verts.len() + new_needed > max_v || tris.len() / 3 + 1 > max_t {
            out.push(MeshletData {
                vertices: std::mem::take(&mut verts),
                triangles: std::mem::take(&mut tris),
                center_radius: [0, 0, 0, 0],
            });
        }
        for c in corners.iter() {
            let local = match verts.iter().position(|v| v == c) {
                Some(p) => p,
                None => {
                    verts.push(*c);
                    verts.len() - 1
                }
            };
            tris.push(local as u8);
        }
        tri += 1;
    }
    if !verts.is_empty() {
        out.push(MeshletData { vertices: verts, triangles: tris, center_radius: [0, 0, 0, 0] });
    }
    out
}

/// A stand-in simplifier: drops every second triangle of the welded group
/// index buffer and reports a small error. Stands in for the simplifier
/// library in tests.
fn halve_triangles(group_indices: &[u32]) -> Vec<u32> {
    let mut out = Vec::new();
    let mut tri = 0;
    while (tri + 1) * 3 <= group_indices.len() {
        if tri % 2 == 0 {
            out.push(group_indices[tri * 3]);
            out.push(group_indices[tri * 3 + 1]);
            out.push(group_indices[tri * 3 + 2]);
        }
        tri += 1;
    }
    out
}

fn positions_bits(xs: &[f32]) -> Vec<u32> {
    xs.iter().map(|x| x.to_bits()).collect()
}

/// Runs the full loop with the stand-ins and returns the asset. A small
/// vertex budget keeps several clusters per level even on tiny meshes.
fn run_pipeline(positions: &[f32], indices: &[u32]) -> AdaptrixFlatAsset {
    let budget_v = 16usize;
    let pos_bits = positions_bits(positions);
    let verts = assemble_vertices(&pos_bits, &Vec::new(), &Vec::new()).unwrap();
    let mut builder = NaniteBuilder::new(verts);
    let meshlets = pack_meshlets(indices, budget_v, MAX_CLUSTER_TRIANGLES as usize);
    for m in meshlets.iter() {
        assert!(check_meshlet(m, builder.vertices.len()));
    }
    let mut current = builder.generate_level0(&meshlets).unwrap();
    let mut level: u32 = 0;
    loop {
        if current.len() <= 1 {
            break;
        }
        let tasks = builder.prepare_level(&current, level).unwrap();
        // recluster every group first: a level is stored only if it shrinks
        let mut batches: Vec<Vec<MeshletData>> = Vec::new();
        let mut next_count = 0;
        for task in tasks.iter() {
            let simplified = halve_triangles(&task.group_indices);
            let simplified = if simplified.is_empty() {
                task.group_indices.clone()
            } else {
                simplified
            };
            let parents = pack_meshlets(&simplified, budget_v, MAX_CLUSTER_TRIANGLES as usize);
            next_count += parents.len();
            batches.push(parents);
        }
        if !continue_loop(current.len(), next_count) {
            break;
        }
        let mut next: Vec<usize> = Vec::new();
        for (task, parents) in tasks.iter().zip(batches.iter()) {
            let ids = builder.finish_group(task, parents, 0, level).unwrap();
            next.extend(ids);
        }
        current = next;
        level += 1;
    }
    builder.into_flat_asset()
}

#[test]
fn single_triangle_one_cluster_and_stop() {
    let pos = positions_bits(&[0.0, 0.0, 0.0, 1.0, 0.0, 0.0, 0.0, 1.0, 0.0]);
    let verts = assemble_vertices(&pos, &Vec::new(), &Vec::new()).unwrap();
    let mut builder = NaniteBuilder::new(verts);
    let meshlets = pack_meshlets(&[0, 1, 2], 64, 124);
    assert_eq!(meshlets.len(), 1);
    let ids = builder.generate_level0(&meshlets).unwrap();
    assert_eq!(ids, vec![0]);
    let asset = builder.into_flat_asset();
    assert_eq!(asset.clusters.len(), 1);
    let c = asset.clusters[0];
    assert_eq!(c.counts, 3 | (1 << 8));
    assert_eq!(c.lod_error, 0);
    assert_eq!(c.parent_error, f32::INFINITY.to_bits());
    assert_eq!(c.parent_error, INFINITY_BITS);
    assert_eq!(asset.meshlet_primitive_indices, vec![0, 1, 2, 0]);
    // the driver stops at once: one cluster in the level
    assert!(!continue_loop(ids.len(), 1));
    assert!(verify_asset(&asset).is_ok());
}

#[test]
fn two_disjoint_triangles_stall_at_level_zero() {
    let pos = positions_bits(&[
        0.0, 0.0, 0.0, 1.0, 0.0, 0.0, 0.0, 1.0, 0.0, 10.0, 10.0, 10.0, 11.0, 10.0, 10.0, 10.0,
        11.0, 10.0,
    ]);
    let verts = assemble_vertices(&pos, &Vec::new(), &Vec::new()).unwrap();
    let mut builder = NaniteBuilder::new(verts);
    // force one meshlet per triangle so the level starts with two clusters
    let m0 = pack_meshlets(&[0, 1, 2], 64, 124).remove(0);
    let m1 = pack_meshlets(&[3, 4, 5], 64, 124).remove(0);
    let current = builder.generate_level0(&vec![m0, m1]).unwrap();
    assert_eq!(current.len(), 2);

    let tasks = builder.prepare_level(&current, 0).unwrap();
    // no shared vertex anywhere: two singleton groups
    assert_eq!(tasks.len(), 2);
    for task in tasks.iter() {
        assert_eq!(task.cluster_indices.len(), 1);
    }

    // a single triangle cannot shrink: the would-be next level is as
    // large as this one, so the driver stops without storing it
    let mut next_count = 0;
    for task in tasks.iter() {
        assert!(sloppy_fallback_needed(task.group_indices.len(), task.group_indices.len()));
        let parents = pack_meshlets(&task.group_indices, 64, 124);
        next_count += parents.len();
    }
    assert_eq!(next_count, 2);
    assert!(!continue_loop(current.len(), next_count));
    let asset = builder.into_flat_asset();
    // the stalled level was never stored: both clusters keep an infinite
    // parent error, exactly as if they had never been grouped
    assert_eq!(asset.clusters.len(), 2);
    for c in asset.clusters.iter() {
        assert_eq!(c.parent_error, INFINITY_BITS);
    }
    assert!(verify_asset(&asset).is_ok());
}

#[test]
fn parent_error_matches_child_patch() {
    // one group of two touching triangles: the children's patched parent
    // error equals the parents' own error
    let pos = positions_bits(&[0.0, 0.0, 0.0, 1.0, 0.0, 0.0, 0.0, 1.0, 0.0, 1.0, 1.0, 0.0]);
    let verts = assemble_vertices(&pos, &Vec::new(), &Vec::new()).unwrap();
    let mut builder = NaniteBuilder::new(verts);
    let m0 = pack_meshlets(&[0, 1, 2], 64, 124).remove(0);
    let m1 = pack_meshlets(&[1, 3, 2], 64, 124).remove(0);
    let current = builder.generate_level0(&vec![m0, m1]).unwrap();
    let tasks = builder.prepare_level(&current, 0).unwrap();
    // the triangles share an edge, so they land in one group
    assert_eq!(tasks.len(), 1);
    let task = &tasks[0];
    assert_eq!(task.cluster_indices.len(), 2);
    // welding merged the shared corners: four distinct grid cells
    assert_eq!(task.group_vertices.len(), 4);

    let simplified = halve_triangles(&task.group_indices);
    let parents = pack_meshlets(&simplified, 64, 124);
    let simplifier_error = 0.25f32.to_bits();
    let ids = builder.finish_group(task, &parents, simplifier_error, 0).unwrap();
    assert_eq!(ids.len(), 1);

    let asset = builder.into_flat_asset();
    let parent = asset.clusters[ids[0]];
    // max child error is 0, the simplifier reported 0.25: one step above
    assert_eq!(parent.lod_error, simplifier_error + 1);
    assert_eq!(parent.parent_error, INFINITY_BITS);
    for &child in task.cluster_indices.iter() {
        assert_eq!(asset.clusters[child].parent_error, parent.lod_error);
        assert!(asset.clusters[child].lod_error < asset.clusters[child].parent_error);
    }
    assert!(verify_asset(&asset).is_ok());
}

#[test]
fn level_zero_triangles_are_preserved() {
    // a strip of eight triangles over ten vertices, split across meshlets:
    // the level-0 clusters hold exactly the input triangles
    let mut pos: Vec<f32> = Vec::new();
    for i in 0..10 {
        pos.push(i as f32);
        pos.push((i % 2) as f32);
        pos.push(0.0);
    }
    let mut indices: Vec<u32> = Vec::new();
    for i in 0..8u32 {
        indices.push(i);
        indices.push(i + 1);
        indices.push(i + 2);
    }
    let pos_bits = positions_bits(&pos);
    let verts = assemble_vertices(&pos_bits, &Vec::new(), &Vec::new()).unwrap();
    let mut builder = NaniteBuilder::new(verts);
    let meshlets = pack_meshlets(&indices, 6, 124);
    assert!(meshlets.len() >= 2);
    builder.generate_level0(&meshlets).unwrap();
    let asset = builder.into_flat_asset();

    let mut stored: Vec<[u32; 3]> = Vec::new();
    for c in asset.clusters.iter() {
        let vc = (c.counts & 0xFF) as usize;
        let tc = ((c.counts >> 8) & 0xFF) as usize;
        let vbase = c.vertex_offset as usize;
        let tbase = c.triangle_offset as usize;
        for t in 0..tc {
            let mut tri = [0u32; 3];
            for q in 0..3 {
                let local = asset.meshlet_primitive_indices[tbase + 3 * t + q] as usize;
                assert!(local < vc);
                tri[q] = asset.meshlet_vertex_indices[vbase + local];
            }
            stored.push(tri);
        }
    }
    let mut expected: Vec<[u32; 3]> = indices.chunks(3).map(|c| [c[0], c[1], c[2]]).collect();
    stored.sort();
    expected.sort();
    assert_eq!(stored, expected);
}

#[test]
fn builds_are_reproducible() {
    let pos = [
        0.0, 0.0, 0.0, 1.0, 0.0, 0.0, 0.0, 1.0, 0.0, 1.0, 1.0, 0.0, 2.0, 0.0, 0.0, 2.0, 1.0, 0.0,
    ];
    let indices = [0u32, 1, 2, 1, 3, 2, 1, 4, 3, 4, 5, 3];
    let a1 = run_pipeline(&pos, &indices);
    let a2 = run_pipeline(&pos, &indices);
    assert_eq!(encode_asset(&a1), encode_asset(&a2));
    assert!(verify_asset(&a1).is_ok());
}

#[test]
fn level_zero_clusters_respect_size_limits() {
    // a fan with many triangles still yields clusters within the limits
    let mut pos: Vec<f32> = vec![0.0, 0.0, 0.0];
    let mut indices: Vec<u32> = Vec::new();
    for i in 0..200 {
        pos.push((i + 1) as f32);
        pos.push(1.0);
        pos.push(0.0);
    }
    for i in 0..199u32 {
        indices.push(0);
        indices.push(i + 1);
        indices.push(i + 2);
    }
    let pos_bits = positions_bits(&pos);
    let verts = assemble_vertices(&pos_bits, &Vec::new(), &Vec::new()).unwrap();
    let mut builder = NaniteBuilder::new(verts);
    let meshlets = pack_meshlets(
        &indices,
        MAX_CLUSTER_VERTICES as usize,
        MAX_CLUSTER_TRIANGLES as usize,
    );
    builder.generate_level0(&meshlets).unwrap();
    let asset = builder.into_flat_asset();
    assert!(asset.clusters.len() >= 2);
    for c in asset.clusters.iter() {
        assert!(c.counts & 0xFF <= MAX_CLUSTER_VERTICES);
        assert!((c.counts >> 8) & 0xFF <= MAX_CLUSTER_TRIANGLES);
    }
}

#[test]
fn group_sizes_and_thresholds_follow_the_level() {
    assert_eq!(group_size_for_level(0), 8);
    assert_eq!(group_size_for_level(1), 8);
    assert_eq!(group_size_for_level(2), 12);
    assert_eq!(group_size_for_level(9), 12);
    assert_eq!(f32::from_bits(error_threshold_bits(0)), 0.01);
    assert_eq!(f32::from_bits(error_threshold_bits(1)), 0.02);
    assert_eq!(f32::from_bits(error_threshold_bits(3)), 0.08);
    assert!(f32::from_bits(error_threshold_bits(200)).is_finite());
    assert!(!sloppy_fallback_needed(10, 5));
    assert!(sloppy_fallback_needed(10, 9));
    // exactly 80 percent kept already counts as a failure to reduce
    assert!(sloppy_fallback_needed(10, 8));
    assert!(!sloppy_fallback_needed(10, 7));
    assert_eq!(simplification_target(10, 0), 5);
    assert_eq!(simplification_target(10, 3), 2);
    assert_eq!(simplification_target(1, 0), 1);
    assert_eq!(simplification_target(0, 5), 1);
}

#[test]
fn bad_meshlets_are_rejected() {
    let pos = positions_bits(&[0.0, 0.0, 0.0, 1.0, 0.0, 0.0, 0.0, 1.0, 0.0]);
    let verts = assemble_vertices(&pos, &Vec::new(), &Vec::new()).unwrap();
    let mut builder = NaniteBuilder::new(verts);
    // a corner byte out of the local table
    let bad = MeshletData { vertices: vec![0, 1, 2], triangles: vec![0, 1, 3], center_radius: [0; 4] };
    assert!(builder.generate_level0(&vec![bad]).is_err());
    // a table entry past the vertex buffer
    let bad2 = MeshletData { vertices: vec![0, 1, 9], triangles: vec![0, 1, 2], center_radius: [0; 4] };
    assert!(builder.generate_level0(&vec![bad2]).is_err());
}

#[test]
fn assemble_vertices_defaults_and_errors() {
    let pos = positions_bits(&[1.0, 2.0, 3.0]);
    let verts = assemble_vertices(&pos, &Vec::new(), &Vec::new()).unwrap();
    assert_eq!(verts.len(), 1);
    assert_eq!(verts[0].position, [1.0f32.to_bits(), 2.0f32.to_bits(), 3.0f32.to_bits()]);
    assert_eq!(verts[0].normal, [0, 1.0f32.to_bits(), 0]);
    assert_eq!(verts[0].uv, [0, 0]);

    let short = positions_bits(&[1.0, 2.0]);
    assert!(assemble_vertices(&short, &Vec::new(), &Vec::new()).is_err());
    let wrong_normals = positions_bits(&[1.0]);
    assert!(assemble_vertices(&pos, &wrong_normals, &Vec::new()).is_err());

    let normals = positions_bits(&[0.0, 0.0, 1.0]);
    let uvs = positions_bits(&[0.5, 0.25]);
    let v2 = assemble_vertices(&pos, &normals, &uvs).unwrap();
    assert_eq!(v2[0].normal, [0, 0, 1.0f32.to_bits()]);
    assert_eq!(v2[0].uv, [0.5f32.to_bits(), 0.25f32.to_bits()]);
}

#[test]
fn multi_level_build_keeps_invariants() {
    // a 9 x 9 vertex grid with 128 triangles builds several levels
    let n = 9usize;
    let mut pos: Vec<f32> = Vec::new();
    for y in 0..n {
        for x in 0..n {
            pos.push(x as f32);
            pos.push(y as f32);
            pos.push(0.0);
        }
    }
    let mut indices: Vec<u32> = Vec::new();
    for y in 0..n - 1 {
        for x in 0..n - 1 {
            let a = (y * n + x) as u32;
            let b = a + 1;
            let c = a + n as u32;
            let d = c + 1;
            indices.extend_from_slice(&[a, b, c, b, d, c]);
        }
    }
    let asset = run_pipeline(&pos, &indices);
    assert!(verify_asset(&asset).is_ok());
    // coarser levels were built and the roots keep an infinite parent error
    assert!(asset.clusters.len() > 2);
    let roots: Vec<_> = asset
        .clusters
        .iter()
        .filter(|c| c.parent_error == INFINITY_BITS)
        .collect();
    assert!(!roots.is_empty());
    // every patched cluster sits strictly below its replacement error
    for c in asset.clusters.iter() {
        assert!(c.lod_error < c.parent_error);
    }
    // the byte image survives the round trip
    let bytes = encode_asset(&asset);
    let back = lume::codec::decode_asset(&bytes).unwrap();
    assert_eq!(back.clusters, asset.clusters);
    assert_eq!(back.vertices, asset.vertices);
}
