//! Byte-level checks of the LAD format: exact header layout, the
//! save-then-load round trip, and every rejection of the loader.

use lume::codec::{decode_asset, encode_asset};
use lume::error::DecodeError;
use lume::types::{AdaptrixFlatAsset, AdaptrixVertex, ClusterPacked};

fn sample_asset() -> AdaptrixFlatAsset {
    AdaptrixFlatAsset {
        clusters: vec![
            ClusterPacked {
                center_radius: [
                    0.5f32.to_bits(),
                    0.25f32.to_bits(),
                    0.0f32.to_bits(),
                    1.0f32.to_bits(),
                ],
                vertex_offset: 0,
                triangle_offset: 0,
                counts: 3 | (1 << 8),
                lod_error: 0,
                parent_error: f32::INFINITY.to_bits(),
                _padding: [0, 0, 0],
            },
        ],
        vertices: vec![
            AdaptrixVertex {
                position: [1.0f32.to_bits(), 2.0f32.to_bits(), 3.0f32.to_bits()],
                normal: [0, 1.0f32.to_bits(), 0],
                uv: [0, 0],
            },
            AdaptrixVertex {
                position: [4.0f32.to_bits(), 5.0f32.to_bits(), 6.0f32.to_bits()],
                normal: [0, 1.0f32.to_bits(), 0],
                uv: [0.5f32.to_bits(), 0.5f32.to_bits()],
            },
            AdaptrixVertex {
                position: [7.0f32.to_bits(), 8.0f32.to_bits(), 9.0f32.to_bits()],
                normal: [0, 1.0f32.to_bits(), 0],
                uv: [0, 0],
            },
        ],
        meshlet_vertex_indices: vec![0, 1, 2],
        meshlet_primitive_indices: vec![0, 1, 2, 0],
    }
}

#[test]
fn header_layout_is_exact() {
    let asset = sample_asset();
    let bytes = encode_asset(&asset);
    assert_eq!(bytes.len(), 40 + 48 + 3 * 32 + 3 * 4 + 4);
    assert_eq!(&bytes[0..4], b"LLAD");
    assert_eq!(&bytes[4..8], &1u32.to_le_bytes());
    assert_eq!(&bytes[8..16], &1u64.to_le_bytes());
    assert_eq!(&bytes[16..24], &3u64.to_le_bytes());
    assert_eq!(&bytes[24..32], &3u64.to_le_bytes());
    assert_eq!(&bytes[32..40], &4u64.to_le_bytes());
    // first cluster field: center x as a little-endian float
    assert_eq!(&bytes[40..44], &0.5f32.to_le_bytes());
    // the primitive bytes close the file
    assert_eq!(&bytes[bytes.len() - 4..], &[0, 1, 2, 0]);
}

#[test]
fn roundtrip_is_bytewise_identical() {
    let asset = sample_asset();
    let bytes = encode_asset(&asset);
    let back = decode_asset(&bytes).unwrap();
    assert_eq!(back.clusters, asset.clusters);
    assert_eq!(back.vertices, asset.vertices);
    assert_eq!(back.meshlet_vertex_indices, asset.meshlet_vertex_indices);
    assert_eq!(back.meshlet_primitive_indices, asset.meshlet_primitive_indices);
    // and the re-encoding reproduces the file image exactly
    assert_eq!(encode_asset(&back), bytes);
}

#[test]
fn empty_asset_roundtrips() {
    let asset = AdaptrixFlatAsset {
        clusters: Vec::new(),
        vertices: Vec::new(),
        meshlet_vertex_indices: Vec::new(),
        meshlet_primitive_indices: Vec::new(),
    };
    let bytes = encode_asset(&asset);
    assert_eq!(bytes.len(), 40);
    let back = decode_asset(&bytes).unwrap();
    assert!(back.clusters.is_empty());
    assert!(back.vertices.is_empty());
}

#[test]
fn loader_rejects_short_files() {
    let r = decode_asset(&vec![76u8, 76, 65, 68]);
    assert_eq!(r.unwrap_err(), DecodeError::TooSmall);
}

#[test]
fn loader_rejects_wrong_magic() {
    let mut bytes = encode_asset(&sample_asset());
    bytes[0] = 77;
    assert_eq!(decode_asset(&bytes).unwrap_err(), DecodeError::BadMagic);
}

#[test]
fn loader_rejects_wrong_version() {
    let mut bytes = encode_asset(&sample_asset());
    bytes[4] = 2;
    assert_eq!(decode_asset(&bytes).unwrap_err(), DecodeError::BadVersion);
}

#[test]
fn loader_rejects_truncated_files() {
    let mut bytes = encode_asset(&sample_asset());
    bytes.truncate(bytes.len() - 1);
    assert_eq!(decode_asset(&bytes).unwrap_err(), DecodeError::Truncated);
}

#[test]
fn trailing_bytes_are_tolerated() {
    // the loader checks a size lower bound only
    let asset = sample_asset();
    let mut bytes = encode_asset(&asset);
    bytes.push(0);
    bytes.push(0);
    let back = decode_asset(&bytes).unwrap();
    assert_eq!(back.clusters, asset.clusters);
}

#[test]
fn header_record_mirrors_the_counts() {
    let asset = sample_asset();
    let h = lume::codec::header_of(&asset);
    assert_eq!(&h.magic, b"LLAD");
    assert_eq!(h.version, 1);
    assert_eq!(h.num_clusters, 1);
    assert_eq!(h.num_vertices, 3);
    assert_eq!(h.num_v_indices, 3);
    assert_eq!(h.num_p_indices, 4);
}
