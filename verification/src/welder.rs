//! Vertex welding: deduplicate vertices whose positions collide on a weld
//! key, remapping the index buffer onto the deduplicated table.
//!
//! The base of the pipeline welds on the exact position bits; the group
//! simplifier welds on positions quantized to a millimetre grid (for a
//! normalized scene), so that group-boundary vertices that only differ in
//! the last few float bits collapse to one simplifiable vertex.

use vstd::prelude::*;
use std::collections::HashMap;
use crate::error::ProcessError;
use crate::types::AdaptrixVertex;

verus! {

broadcast use vstd::std_specs::hash::group_hash_axioms;

/// The three 32-bit words of a weld key packed into one 128-bit value.
pub open spec fn weld_key(a: u32, b: u32, c: u32) -> int {
    a + b * 0x1_0000_0000 + c * 0x1_0000_0000_0000_0000
}

/// Packs three words into a weld key.
pub fn make_weld_key(a: u32, b: u32, c: u32) -> (k: u128)
    ensures
        k == weld_key(a, b, c),
{
    a as u128 + (b as u128) * 0x1_0000_0000u128 + (c as u128) * 0x1_0000_0000_0000_0000u128
}

/// Doubles `v` up to `k` times, stopping at a sentinel once the value can
/// no longer matter for a 32-bit magnitude.
pub open spec fn spec_scale_up(v: u64, k: nat) -> u64
    decreases k,
{
    if k == 0 {
        v
    } else if v > 0x1_0000_0000 {
        0xFFFF_FFFF_FFFF
    } else {
        spec_scale_up((v * 2) as u64, (k - 1) as nat)
    }
}

fn scale_up(v: u64, k: u32) -> (r: u64)
    ensures
        r == spec_scale_up(v, k as nat),
    decreases k,
{
    if k == 0 {
        v
    } else if v > 0x1_0000_0000 {
        0xFFFF_FFFF_FFFF
    } else {
        scale_up(v * 2, k - 1)
    }
}

/// Halves `v` `k` times, truncating toward zero.
pub open spec fn spec_scale_down(v: u64, k: nat) -> u64
    decreases k,
{
    if k == 0 || v == 0 {
        v
    } else {
        spec_scale_down(v / 2, (k - 1) as nat)
    }
}

fn scale_down(v: u64, k: u32) -> (r: u64)
    ensures
        r == spec_scale_down(v, k as nat),
    decreases k,
{
    if k == 0 || v == 0 {
        v
    } else {
        scale_down(v / 2, k - 1)
    }
}

/// The weld grid coordinate of one position component: the component,
/// read as an IEEE-754 single, scaled by 1000 and truncated toward zero,
/// saturating at the 32-bit limits. Non-finite components saturate.
pub open spec fn spec_quantize_coord(bits: u32) -> i32 {
    let sign = bits >= 0x8000_0000;
    let e = (bits / 0x80_0000) % 256;
    let m = bits % 0x80_0000;
    if e == 0xFF {
        if sign {
            i32::MIN
        } else {
            i32::MAX
        }
    } else {
        let mant: u64 = if e == 0 {
            m as u64
        } else {
            (m + 0x80_0000) as u64
        };
        let scaled: u64 = (mant * 1000) as u64;
        let mag: u64 = if e >= 150 {
            spec_scale_up(scaled, (e - 150) as nat)
        } else {
            spec_scale_down(scaled, (150 - e) as nat)
        };
        if sign {
            if mag >= 0x8000_0000u64 {
                i32::MIN
            } else {
                (0 - mag) as i32
            }
        } else {
            if mag > 0x7FFF_FFFF {
                i32::MAX
            } else {
                mag as i32
            }
        }
    }
}

/// Computes the weld grid coordinate of one position component.
pub fn quantize_coord(bits: u32) -> (q: i32)
    ensures
        q == spec_quantize_coord(bits),
{
    let sign: bool = bits >= 0x8000_0000;
    let e: u32 = (bits / 0x80_0000) % 256;
    let m: u32 = bits % 0x80_0000;
    if e == 0xFF {
        return if sign {
            i32::MIN
        } else {
            i32::MAX
        };
    }
    let mant: u64 = if e == 0 {
        m as u64
    } else {
        (m + 0x80_0000) as u64
    };
    let scaled: u64 = mant * 1000;
    let mag: u64 = if e >= 150 {
        scale_up(scaled, e - 150)
    } else {
        scale_down(scaled, 150 - e)
    };
    if sign {
        if mag >= 0x8000_0000u64 {
            i32::MIN
        } else {
            assert(0 - mag >= i32::MIN);
            (0 - (mag as i64)) as i32
        }
    } else {
        if mag > 0x7FFF_FFFF {
            i32::MAX
        } else {
            mag as i32
        }
    }
}

/// The weld key of a position on the quantized grid.
pub open spec fn spec_quantized_key(position: [u32; 3]) -> int {
    weld_key(
        spec_quantize_coord(position[0]) as u32,
        spec_quantize_coord(position[1]) as u32,
        spec_quantize_coord(position[2]) as u32,
    )
}

/// Computes the quantized weld key of a position.
pub fn quantized_key(position: [u32; 3]) -> (k: u128)
    ensures
        k == spec_quantized_key(position),
{
    let q0 = quantize_coord(position[0]);
    let q1 = quantize_coord(position[1]);
    let q2 = quantize_coord(position[2]);
    make_weld_key(q0 as u32, q1 as u32, q2 as u32)
}

/// Every vertex of the first buffer is taken unchanged from the second.
pub open spec fn vertices_drawn_from(
    verts: Seq<AdaptrixVertex>,
    vertices: Seq<AdaptrixVertex>,
) -> bool {
    forall|j: int|
        0 <= j < verts.len() ==> exists|t: int|
            0 <= t < vertices.len() && #[trigger] verts[j] == vertices[t]
}

/// Deduplicates the vertex buffer by exact position bits and remaps the
/// index buffer onto it. Succeeds exactly when every index names an input
/// vertex; the remapped triangles reference the same positions as before,
/// and no two output vertices share a position.
pub fn weld_vertices(vertices: &Vec<AdaptrixVertex>, indices: &Vec<u32>) -> (r: Result<
    (Vec<AdaptrixVertex>, Vec<u32>),
    ProcessError,
>)
    requires
        indices@.len() <= 0xFFFF_FFFF,
    ensures
        (forall|i: int|
            0 <= i < indices@.len() ==> (#[trigger] indices@[i] as int) < vertices@.len()) <==> r
            is Ok,
        match r {
            Ok((verts, remap)) => {
                &&& remap@.len() == indices@.len()
                &&& forall|i: int|
                    0 <= i < remap@.len() ==> (#[trigger] remap@[i] as int) < verts@.len()
                &&& forall|i: int|
                    0 <= i < remap@.len() ==> verts@[#[trigger] remap@[i] as int].position
                        == vertices@[indices@[i] as int].position
                &&& vertices_drawn_from(verts@, vertices@)
                &&& forall|j1: int, j2: int|
                    0 <= j1 < j2 < verts@.len() ==> (#[trigger] verts@[j1]).position != (
                    #[trigger] verts@[j2]).position
            },
            Err(e) => e is InputMalformed,
        },
{
    let mut map: HashMap<u128, u32> = HashMap::new();
    let mut verts: Vec<AdaptrixVertex> = Vec::new();
    let mut remap: Vec<u32> = Vec::new();
    let mut i: usize = 0;
    while i < indices.len()
        invariant
            i <= indices@.len(),
            indices@.len() <= 0xFFFF_FFFF,
            vstd::std_specs::hash::obeys_key_model::<u128>(),
            vstd::std_specs::hash::builds_valid_hashers::<std::hash::RandomState>(),
            verts@.len() <= i,
            remap@.len() == i,
            forall|t: int| 0 <= t < i ==> (#[trigger] indices@[t] as int) < vertices@.len(),
            forall|k: u128|
                map@.contains_key(k) ==> (#[trigger] map@[k] as int) < verts@.len() && weld_key(
                    verts@[map@[k] as int].position[0],
                    verts@[map@[k] as int].position[1],
                    verts@[map@[k] as int].position[2],
                ) == k,
            forall|j: int|
                0 <= j < verts@.len() ==> {
                    let k = weld_key(
                        (#[trigger] verts@[j]).position[0],
                        verts@[j].position[1],
                        verts@[j].position[2],
                    );
                    map@.contains_key(k as u128) && map@[k as u128] == j as u32
                },
            vertices_drawn_from(verts@, vertices@),
            forall|t: int| 0 <= t < remap@.len() ==> (#[trigger] remap@[t] as int) < verts@.len(),
            forall|t: int|
                0 <= t < remap@.len() ==> verts@[#[trigger] remap@[t] as int].position
                    == vertices@[indices@[t] as int].position,
        decreases indices@.len() - i,
    {
        let idx = indices[i];
        if idx as usize >= vertices.len() {
            return Err(
                ProcessError::InputMalformed { value: idx as usize, bound: vertices.len() },
            );
        }
        let v = vertices[idx as usize];
        let key = make_weld_key(v.position[0], v.position[1], v.position[2]);
        let entry = map.get(&key);
        match entry {
            Some(j) => {
                let j = *j;
                proof {
                    assert(map@.contains_key(key) && map@[key] == j);
                }
                remap.push(j);
            },
            None => {
                proof {
                    assert(!map@.contains_key(key));
                }
                let j = verts.len() as u32;
                map.insert(key, j);
                verts.push(v);
                remap.push(j);
                proof {
                    assert(vertices_drawn_from(verts@, vertices@)) by {
                        assert forall|j2: int| 0 <= j2 < verts@.len() implies exists|t: int|
                            0 <= t < vertices@.len() && #[trigger] verts@[j2] == vertices@[t] by {
                            if j2 == verts@.len() - 1 {
                                assert(verts@[j2] == vertices@[idx as int]);
                            }
                        }
                    }
                }
            },
        }
        i = i + 1;
    }
    proof {
        assert forall|j1: int, j2: int| 0 <= j1 < j2 < verts@.len() implies (
        #[trigger] verts@[j1]).position != (#[trigger] verts@[j2]).position by {
            if verts@[j1].position == verts@[j2].position {
                let k1 = weld_key(
                    verts@[j1].position[0],
                    verts@[j1].position[1],
                    verts@[j1].position[2],
                ) as u128;
                assert(map@.contains_key(k1) && map@[k1] == j1 as u32);
                assert(map@[k1] == j2 as u32);
            }
        }
    }
    Ok((verts, remap))
}

} // verus!
