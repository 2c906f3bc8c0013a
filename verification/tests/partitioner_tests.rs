//! Adjacency and grouping checks: shared vertices become symmetric CSR
//! edges, and the BFS partition covers the level with bounded, disjoint,
//! connected groups.

use lume::partitioner::{
    build_adjacency, csr_from_edges, dedup_pairs, partition_clusters, sort_pairs, Adjacency,
};

fn neighbors_of(adj: &Adjacency, c: usize) -> Vec<u32> {
    let start = adj.offsets[c] as usize;
    let end = adj.offsets[c + 1] as usize;
    adj.neighbors[start..end].to_vec()
}

#[test]
fn sorting_and_dedup_order_pairs() {
    let pairs = vec![(3u32, 1u32), (1, 2), (3, 1), (1, 1), (2, 9)];
    let sorted = sort_pairs(&pairs);
    assert_eq!(sorted, vec![(1, 1), (1, 2), (2, 9), (3, 1), (3, 1)]);
    let unique = dedup_pairs(&sorted);
    assert_eq!(unique, vec![(1, 1), (1, 2), (2, 9), (3, 1)]);
}

#[test]
fn csr_carries_both_directions() {
    let edges = vec![(0u32, 1u32), (1, 2)];
    let adj = csr_from_edges(4, &edges);
    assert_eq!(adj.offsets.len(), 5);
    assert_eq!(neighbors_of(&adj, 0), vec![1]);
    assert_eq!(neighbors_of(&adj, 1), vec![0, 2]);
    assert_eq!(neighbors_of(&adj, 2), vec![1]);
    assert_eq!(neighbors_of(&adj, 3), Vec::<u32>::new());
}

#[test]
fn shared_vertices_make_clusters_adjacent() {
    // clusters 0 and 1 share vertex 7; cluster 2 is isolated
    let cluster_indices = vec![0u32, 1, 2];
    let meshlet_vertex_indices = vec![7u32, 3, 7, 4, 5, 6];
    let table = vec![(0u32, 2u32), (2, 2), (4, 2)];
    let adj = build_adjacency(3, &cluster_indices, &meshlet_vertex_indices, &table);
    assert_eq!(neighbors_of(&adj, 0), vec![1]);
    assert_eq!(neighbors_of(&adj, 1), vec![0]);
    assert!(neighbors_of(&adj, 2).is_empty());
    let r = adj.get_neighbors(0);
    assert_eq!(r, &[1]);
}

#[test]
fn high_valence_vertex_keeps_one_component() {
    // five clusters all touch vertex 0: consecutive-run edges keep them in
    // one component without the full clique
    let cluster_indices = vec![0u32, 1, 2, 3, 4];
    let mut mvi = Vec::new();
    let mut table = Vec::new();
    for c in 0..5u32 {
        table.push((mvi.len() as u32, 2u32));
        mvi.push(0u32);
        mvi.push(10 + c);
    }
    let adj = build_adjacency(5, &cluster_indices, &mvi, &table);
    let total_edges: usize = adj.neighbors.len() / 2;
    assert_eq!(total_edges, 4);
    let groups = partition_clusters(5, &cluster_indices, &adj, 5);
    assert_eq!(groups.len(), 1);
    assert_eq!(groups[0].cluster_indices.len(), 5);
}

#[test]
fn partition_covers_disjointly_with_bounded_groups() {
    // a chain 0-1-2-3-4-5 partitioned with a group budget of 2
    let cluster_indices = vec![0u32, 1, 2, 3, 4, 5];
    let edges = vec![(0u32, 1u32), (1, 2), (2, 3), (3, 4), (4, 5)];
    let adj = csr_from_edges(6, &edges);
    let groups = partition_clusters(6, &cluster_indices, &adj, 2);
    let mut seen: Vec<u32> = Vec::new();
    for g in groups.iter() {
        assert!(1 <= g.cluster_indices.len() && g.cluster_indices.len() <= 2);
        for &m in g.cluster_indices.iter() {
            assert!(!seen.contains(&m));
            seen.push(m);
        }
    }
    seen.sort();
    assert_eq!(seen, cluster_indices);
}

#[test]
fn isolated_clusters_form_singletons() {
    let cluster_indices = vec![0u32, 1, 2];
    let adj = csr_from_edges(3, &Vec::new());
    let groups = partition_clusters(3, &cluster_indices, &adj, 4);
    assert_eq!(groups.len(), 3);
    for g in groups.iter() {
        assert_eq!(g.cluster_indices.len(), 1);
    }
}

#[test]
fn partition_ignores_clusters_outside_the_level() {
    // the graph knows five clusters, the level holds three of them
    let cluster_indices = vec![0u32, 2, 4];
    let edges = vec![(0u32, 1u32), (1, 2), (2, 3), (3, 4), (0, 2)];
    let adj = csr_from_edges(5, &edges);
    let groups = partition_clusters(5, &cluster_indices, &adj, 8);
    let mut seen: Vec<u32> = Vec::new();
    for g in groups.iter() {
        for &m in g.cluster_indices.iter() {
            assert!(cluster_indices.contains(&m));
            seen.push(m);
        }
    }
    seen.sort();
    assert_eq!(seen, cluster_indices);
}
