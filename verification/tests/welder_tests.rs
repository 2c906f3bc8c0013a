//! Welding and quantization checks: exact grid values, deduplication by
//! position, and rejection of out-of-range indices.

use lume::builder::assemble_vertices;
use lume::welder::{make_weld_key, quantize_coord, quantized_key, weld_vertices};

#[test]
fn quantize_matches_thousandths() {
    assert_eq!(quantize_coord(0.0f32.to_bits()), 0);
    assert_eq!(quantize_coord((-0.0f32).to_bits()), 0);
    assert_eq!(quantize_coord(1.0f32.to_bits()), 1000);
    assert_eq!(quantize_coord((-1.0f32).to_bits()), -1000);
    assert_eq!(quantize_coord(0.5f32.to_bits()), 500);
    assert_eq!(quantize_coord(2.0f32.to_bits()), 2000);
    assert_eq!(quantize_coord(0.0001f32.to_bits()), 0);
    assert_eq!(quantize_coord(0.0015f32.to_bits()), 1);
    assert_eq!(quantize_coord(123.456f32.to_bits()), 123456);
    assert_eq!(quantize_coord(f32::INFINITY.to_bits()), i32::MAX);
    assert_eq!(quantize_coord(f32::NEG_INFINITY.to_bits()), i32::MIN);
    assert_eq!(quantize_coord(1.0e9f32.to_bits()), i32::MAX);
    assert_eq!(quantize_coord((-1.0e9f32).to_bits()), i32::MIN);
}

#[test]
fn nearby_positions_share_a_grid_cell() {
    let a = [1.0f32.to_bits(), 0.0f32.to_bits(), 0.0f32.to_bits()];
    let b = [(1.0f32 + 1.0e-6).to_bits(), 0.0f32.to_bits(), 0.0f32.to_bits()];
    let c = [1.01f32.to_bits(), 0.0f32.to_bits(), 0.0f32.to_bits()];
    assert_eq!(quantized_key(a), quantized_key(b));
    assert_ne!(quantized_key(a), quantized_key(c));
}

#[test]
fn weld_key_packs_three_words() {
    assert_eq!(make_weld_key(1, 0, 0), 1u128);
    assert_eq!(make_weld_key(0, 1, 0), 1u128 << 32);
    assert_eq!(make_weld_key(0, 0, 1), 1u128 << 64);
    assert_ne!(make_weld_key(1, 2, 3), make_weld_key(3, 2, 1));
}

#[test]
fn welding_removes_exact_duplicates() {
    // two triangles whose shared edge is stored twice in the vertex buffer
    let pos: Vec<u32> = [
        0.0f32, 0.0, 0.0, 1.0, 0.0, 0.0, 0.0, 1.0, 0.0,  // triangle one
        1.0, 0.0, 0.0, 1.0, 1.0, 0.0, 0.0, 1.0, 0.0,  // triangle two repeats two corners
    ]
        .iter()
        .map(|x| x.to_bits())
        .collect();
    let vertices = assemble_vertices(&pos, &Vec::new(), &Vec::new()).unwrap();
    let indices: Vec<u32> = vec![0, 1, 2, 3, 4, 5];
    let (welded, remap) = weld_vertices(&vertices, &indices).unwrap();
    assert_eq!(welded.len(), 4);
    assert_eq!(remap.len(), 6);
    // the shared corners now name one vertex each
    assert_eq!(remap[1], remap[3]);
    assert_eq!(remap[2], remap[5]);
    for (i, &r) in remap.iter().enumerate() {
        assert_eq!(welded[r as usize].position, vertices[indices[i] as usize].position);
    }
}

#[test]
fn welding_rejects_out_of_range_indices() {
    let pos: Vec<u32> = [0.0f32, 0.0, 0.0].iter().map(|x| x.to_bits()).collect();
    let vertices = assemble_vertices(&pos, &Vec::new(), &Vec::new()).unwrap();
    let indices: Vec<u32> = vec![0, 0, 1];
    assert!(weld_vertices(&vertices, &indices).is_err());
}
