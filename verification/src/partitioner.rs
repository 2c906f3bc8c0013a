//! Cluster adjacency (compressed sparse row) and BFS grouping.
//!
//! Two clusters are adjacent when they share at least one vertex. The
//! builder emits one (vertex, cluster) pair per table entry, sorts the
//! pairs, connects consecutive entries of each shared-vertex run (enough to
//! keep the components of the full sharing graph at a fraction of the
//! edges), dedupes the edge list and lays it out as CSR with both
//! directions of every edge.

use vstd::prelude::*;
use vstd::seq_lib::group_seq_properties;

verus! {

broadcast use group_seq_properties;

/// Lexicographic order on (vertex, cluster) or (cluster, cluster) pairs.
pub open spec fn pair_le(x: (u32, u32), y: (u32, u32)) -> bool {
    x.0 < y.0 || (x.0 == y.0 && x.1 <= y.1)
}

/// The sequence is sorted under `pair_le`.
pub open spec fn pairs_sorted(s: Seq<(u32, u32)>) -> bool {
    forall|i: int, j: int| 0 <= i < j < s.len() ==> pair_le(#[trigger] s[i], #[trigger] s[j])
}

proof fn lemma_insert_to_multiset(s: Seq<(u32, u32)>, i: int, x: (u32, u32))
    requires
        0 <= i <= s.len(),
    ensures
        s.insert(i, x).to_multiset() =~= s.to_multiset().insert(x),
    decreases s.len() - i,
{
    broadcast use vstd::seq_lib::group_to_multiset_ensures;

    if i == s.len() {
        assert(s.insert(i, x) =~= s.push(x));
    } else {
        let last = s.last();
        let s0 = s.drop_last();
        lemma_insert_to_multiset(s0, i, x);
        assert(s.insert(i, x) =~= s0.insert(i, x).push(last));
        assert(s =~= s0.push(last));
    }
}

/// Inserts `x` into a sorted vector, keeping it sorted.
fn sorted_insert(v: &mut Vec<(u32, u32)>, x: (u32, u32))
    requires
        pairs_sorted(old(v)@),
    ensures
        pairs_sorted(final(v)@),
        final(v)@.to_multiset() == old(v)@.to_multiset().insert(x),
        final(v)@.len() == old(v)@.len() + 1,
{
    let mut p: usize = 0;
    while p < v.len() && (v[p].0 < x.0 || (v[p].0 == x.0 && v[p].1 <= x.1))
        invariant
            p <= v@.len(),
            forall|i: int| 0 <= i < p ==> pair_le(#[trigger] v@[i], x),
        decreases v@.len() - p,
    {
        p = p + 1;
    }
    assert(p < v@.len() ==> !pair_le(v@[p as int], x));
    v.insert(p, x);
    proof {
        lemma_insert_to_multiset(old(v)@, p as int, x);
        assert forall|i: int, j: int| 0 <= i < j < v@.len() implies pair_le(
            #[trigger] v@[i],
            #[trigger] v@[j],
        ) by {
            if i < p as int && j == p as int {
            } else if i == p as int && j > p as int {
                assert(v@[j] == old(v)@[j - 1]);
                if p as int <= j - 1 {
                    assert(!pair_le(old(v)@[p as int], x));
                    assert(pair_le(old(v)@[p as int], old(v)@[j - 1]) || p as int == j - 1);
                }
            } else if i < p as int && j > p as int {
                assert(v@[i] == old(v)@[i] && v@[j] == old(v)@[j - 1]);
            } else if i > p as int && j > p as int {
                assert(v@[i] == old(v)@[i - 1] && v@[j] == old(v)@[j - 1]);
            }
        }
    }
}

/// Sorts pairs lexicographically; the result holds exactly the elements of
/// the input.
pub fn sort_pairs(v: &Vec<(u32, u32)>) -> (r: Vec<(u32, u32)>)
    ensures
        pairs_sorted(r@),
        r@.to_multiset() == v@.to_multiset(),
        r@.len() == v@.len(),
        forall|k: int| 0 <= k < r@.len() ==> v@.contains(#[trigger] r@[k]),
{
    broadcast use vstd::seq_lib::group_to_multiset_ensures;

    let mut r: Vec<(u32, u32)> = Vec::new();
    let mut i: usize = 0;
    while i < v.len()
        invariant
            i <= v@.len(),
            pairs_sorted(r@),
            r@.to_multiset() == v@.take(i as int).to_multiset(),
            r@.len() == i,
        decreases v@.len() - i,
    {
        sorted_insert(&mut r, v[i]);
        proof {
            assert(v@.take(i + 1).drop_last() =~= v@.take(i as int));
            assert(v@.take(i + 1) =~= v@.take(i as int).push(v@[i as int]));
        }
        i = i + 1;
    }
    proof {
        assert(v@.take(v@.len() as int) =~= v@);
        assert forall|k: int| 0 <= k < r@.len() implies v@.contains(#[trigger] r@[k]) by {
            assert(r@.to_multiset().count(r@[k]) > 0);
            assert(v@.to_multiset().count(r@[k]) > 0);
        }
    }
    r
}

/// Removes duplicates from a sorted pair list: the result is strictly
/// increasing and holds exactly the distinct elements of the input.
pub fn dedup_pairs(v: &Vec<(u32, u32)>) -> (r: Vec<(u32, u32)>)
    requires
        pairs_sorted(v@),
    ensures
        pairs_sorted(r@),
        r@.no_duplicates(),
        forall|x: (u32, u32)| r@.contains(x) <==> v@.contains(x),
        r@.len() <= v@.len(),
{
    let mut r: Vec<(u32, u32)> = Vec::new();
    let mut i: usize = 0;
    while i < v.len()
        invariant
            i <= v@.len(),
            r@.len() <= i,
            pairs_sorted(v@),
            pairs_sorted(r@),
            r@.no_duplicates(),
            forall|x: (u32, u32)| r@.contains(x) <==> v@.take(i as int).contains(x),
            i > 0 && r@.len() > 0 ==> r@.last() == v@[i - 1],
            i > 0 ==> r@.len() > 0,
            i == 0 ==> r@.len() == 0,
        decreases v@.len() - i,
    {
        let x = v[i];
        let keep = if r.len() == 0 {
            true
        } else {
            let last = r[r.len() - 1];
            !(last.0 == x.0 && last.1 == x.1)
        };
        if keep {
            proof {
                assert forall|k: int| 0 <= k < r@.len() implies pair_le(#[trigger] r@[k], x)
                    && r@[k] != x by {
                    let last = r@[r@.len() - 1];
                    assert(last != x);
                    assert(pair_le(last, x)) by {
                        assert(i > 0);
                        assert(last == v@[i - 1]);
                        assert(pair_le(v@[i - 1], v@[i as int]));
                    }
                    assert(pair_le(r@[k], last) || k == r@.len() - 1);
                }
            }
            r.push(x);
            proof {
                assert forall|a: int, b: int| 0 <= a < b < r@.len() implies pair_le(
                    #[trigger] r@[a],
                    #[trigger] r@[b],
                ) by {
                    if b < r@.len() - 1 {
                    } else {
                        assert(r@[b] == x);
                    }
                }
            }
        }
        proof {
            assert(v@.take(i + 1) =~= v@.take(i as int).push(v@[i as int]));
        }
        i = i + 1;
    }
    proof {
        assert(v@.take(v@.len() as int) =~= v@);
    }
    r
}

/// One edge touches a cluster when the cluster is one of its endpoints.
pub open spec fn touches(e: (u32, u32), c: u32) -> bool {
    e.0 == c || e.1 == c
}

/// How many edges of the list touch the cluster: its CSR degree.
pub open spec fn inc_count(es: Seq<(u32, u32)>, c: u32) -> int
    decreases es.len(),
{
    if es.len() == 0 {
        0
    } else {
        inc_count(es.drop_last(), c) + if touches(es.last(), c) {
            1int
        } else {
            0int
        }
    }
}

/// The other endpoints of the edges touching the cluster, in edge-list
/// order: the cluster's CSR neighbor row.
pub open spec fn partners(es: Seq<(u32, u32)>, c: u32) -> Seq<u32>
    decreases es.len(),
{
    if es.len() == 0 {
        Seq::empty()
    } else {
        partners(es.drop_last(), c) + if es.last().0 == c {
            seq![es.last().1]
        } else if es.last().1 == c {
            seq![es.last().0]
        } else {
            Seq::empty()
        }
    }
}

/// Sum of the degrees of all clusters below `c`: the CSR row offset of `c`.
pub open spec fn cum_degree(es: Seq<(u32, u32)>, c: int) -> int
    decreases c,
{
    if c <= 0 {
        0
    } else {
        cum_degree(es, c - 1) + inc_count(es, (c - 1) as u32)
    }
}

proof fn lemma_inc_count_take_step(es: Seq<(u32, u32)>, e: int, c: u32)
    requires
        0 <= e < es.len(),
    ensures
        inc_count(es.take(e + 1), c) == inc_count(es.take(e), c) + if touches(es[e], c) {
            1int
        } else {
            0int
        },
        partners(es.take(e + 1), c) == partners(es.take(e), c) + if es[e].0 == c {
            seq![es[e].1]
        } else if es[e].1 == c {
            seq![es[e].0]
        } else {
            Seq::<u32>::empty()
        },
{
    assert(es.take(e + 1).drop_last() =~= es.take(e));
    assert(es.take(e + 1).last() == es[e]);
}

proof fn lemma_inc_count_bounds(es: Seq<(u32, u32)>, c: u32)
    ensures
        0 <= inc_count(es, c) <= es.len(),
        partners(es, c).len() == inc_count(es, c),
    decreases es.len(),
{
    if es.len() > 0 {
        lemma_inc_count_bounds(es.drop_last(), c);
    }
}

proof fn lemma_inc_count_take_le(es: Seq<(u32, u32)>, e: int, c: u32)
    requires
        0 <= e <= es.len(),
    ensures
        inc_count(es.take(e), c) <= inc_count(es, c),
    decreases es.len() - e,
{
    if e == es.len() {
        assert(es.take(e) =~= es);
    } else {
        lemma_inc_count_take_step(es, e, c);
        lemma_inc_count_take_le(es, e + 1, c);
    }
}

proof fn lemma_cum_degree_mono(es: Seq<(u32, u32)>, a: int, b: int)
    requires
        0 <= a <= b,
    ensures
        cum_degree(es, a) <= cum_degree(es, b),
    decreases b - a,
{
    if a < b {
        lemma_cum_degree_mono(es, a, b - 1);
        lemma_inc_count_bounds(es, (b - 1) as u32);
    }
}

proof fn lemma_cum_degree_empty(c: int)
    ensures
        cum_degree(Seq::<(u32, u32)>::empty(), c) == 0,
    decreases c,
{
    if c > 0 {
        lemma_cum_degree_empty(c - 1);
    }
}

proof fn lemma_cum_degree_drop(es: Seq<(u32, u32)>, c: int)
    requires
        es.len() > 0,
        es.last().0 != es.last().1,
        0 <= c <= 0x1_0000_0000,
    ensures
        cum_degree(es, c) == cum_degree(es.drop_last(), c) + (if (es.last().0 as int) < c {
            1int
        } else {
            0int
        }) + (if (es.last().1 as int) < c {
            1int
        } else {
            0int
        }),
    decreases c,
{
    if c > 0 {
        lemma_cum_degree_drop(es, c - 1);
        assert(inc_count(es, (c - 1) as u32) == inc_count(es.drop_last(), (c - 1) as u32)
            + if touches(es.last(), (c - 1) as u32) {
            1int
        } else {
            0int
        });
        assert(cum_degree(es, c) == cum_degree(es, c - 1) + inc_count(es, (c - 1) as u32));
        assert(cum_degree(es.drop_last(), c) == cum_degree(es.drop_last(), c - 1) + inc_count(
            es.drop_last(),
            (c - 1) as u32,
        ));
    }
}

proof fn lemma_cum_degree_le_twice(es: Seq<(u32, u32)>, c: int)
    requires
        0 <= c <= 0x1_0000_0000,
        forall|k: int| 0 <= k < es.len() ==> (#[trigger] es[k]).0 != es[k].1,
    ensures
        cum_degree(es, c) <= 2 * es.len(),
    decreases es.len(),
{
    if es.len() == 0 {
        lemma_cum_degree_empty(c);
        assert(es =~= Seq::<(u32, u32)>::empty());
    } else {
        let es0 = es.drop_last();
        assert(forall|k: int| 0 <= k < es0.len() ==> (#[trigger] es0[k]).0 != es0[k].1);
        lemma_cum_degree_le_twice(es0, c);
        lemma_cum_degree_drop(es, c);
    }
}

proof fn lemma_cum_degree_exact(es: Seq<(u32, u32)>, c: int)
    requires
        0 <= c <= 0x1_0000_0000,
        forall|k: int|
            0 <= k < es.len() ==> (#[trigger] es[k]).0 < es[k].1 && (es[k].1 as int) < c,
    ensures
        cum_degree(es, c) == 2 * es.len(),
    decreases es.len(),
{
    if es.len() == 0 {
        lemma_cum_degree_empty(c);
        assert(es =~= Seq::<(u32, u32)>::empty());
    } else {
        let es0 = es.drop_last();
        assert(forall|k: int|
            0 <= k < es0.len() ==> (#[trigger] es0[k]).0 < es0[k].1 && (es0[k].1 as int) < c);
        lemma_cum_degree_exact(es0, c);
        lemma_cum_degree_drop(es, c);
        assert(es.last() == es[es.len() - 1]);
    }
}

proof fn lemma_partners_no_dup(es: Seq<(u32, u32)>, c: u32)
    requires
        es.no_duplicates(),
        forall|k: int| 0 <= k < es.len() ==> (#[trigger] es[k]).0 < es[k].1,
    ensures
        partners(es, c).no_duplicates(),
    decreases es.len(),
{
    broadcast use group_seq_properties;

    if es.len() > 0 {
        let es0 = es.drop_last();
        let last = es.last();
        assert(last == es[es.len() - 1]);
        assert(es0.no_duplicates());
        assert(forall|k: int| 0 <= k < es0.len() ==> (#[trigger] es0[k]).0 < es0[k].1);
        lemma_partners_no_dup(es0, c);
        let tail: Seq<u32> = if last.0 == c {
            seq![last.1]
        } else if last.1 == c {
            seq![last.0]
        } else {
            Seq::empty()
        };
        if tail.len() > 0 {
            let w = tail[0];
            assert(!partners(es0, c).contains(w)) by {
                lemma_partners_contains(es0, c, w);
                if es0.contains((c, w)) {
                    let i = choose|i: int| 0 <= i < es0.len() && es0[i] == (c, w);
                    assert(es[i] == (c, w));
                    assert((c, w) != last ==> true);
                    if last == (c, w) {
                        assert(es[i] == es[es.len() - 1] && i != es.len() - 1);
                    } else {
                        assert(es0[i].0 < es0[i].1);
                        assert(last.0 < last.1);
                    }
                }
                if es0.contains((w, c)) {
                    let i = choose|i: int| 0 <= i < es0.len() && es0[i] == (w, c);
                    assert(es[i] == (w, c));
                    if last == (w, c) {
                        assert(es[i] == es[es.len() - 1] && i != es.len() - 1);
                    } else {
                        assert(es0[i].0 < es0[i].1);
                        assert(last.0 < last.1);
                    }
                }
            }
            assert(partners(es, c) == partners(es0, c).push(w)) by {
                assert(partners(es, c) =~= partners(es0, c) + seq![w]);
                assert(partners(es0, c) + seq![w] =~= partners(es0, c).push(w));
            }
            assert forall|j1: int, j2: int|
                0 <= j1 < j2 < partners(es, c).len() implies partners(es, c)[j1] != partners(
                es,
                c,
            )[j2] by {
                if j2 == partners(es, c).len() - 1 {
                    assert(partners(es, c)[j1] == partners(es0, c)[j1]);
                    assert(partners(es, c)[j2] == w);
                    assert(partners(es0, c).contains(partners(es0, c)[j1]));
                }
            }
        } else {
            assert(partners(es, c) =~= partners(es0, c));
        }
    }
}

proof fn lemma_partners_elements(es: Seq<(u32, u32)>, c: u32, bound: int)
    requires
        forall|k: int|
            0 <= k < es.len() ==> (#[trigger] es[k]).0 < bound && (es[k].1 as int) < bound,
    ensures
        forall|k: int| 0 <= k < partners(es, c).len() ==> (#[trigger] partners(es, c)[k]) < bound,
    decreases es.len(),
{
    if es.len() > 0 {
        let es0 = es.drop_last();
        assert(forall|k: int|
            0 <= k < es0.len() ==> (#[trigger] es0[k]).0 < bound && (es0[k].1 as int) < bound);
        lemma_partners_elements(es0, c, bound);
        assert(es.last() == es[es.len() - 1]);
        assert forall|k: int| 0 <= k < partners(es, c).len() implies (#[trigger] partners(es, c)[k])
            < bound by {
            if k < partners(es0, c).len() {
                assert(partners(es, c)[k] == partners(es0, c)[k]);
            }
        }
    }
}

proof fn lemma_partners_contains(es: Seq<(u32, u32)>, c: u32, n: u32)
    ensures
        partners(es, c).contains(n) <==> (es.contains((c, n)) || es.contains((n, c)) || (c == n
            && exists|k: int| 0 <= k < es.len() && touches(#[trigger] es[k], c) && es[k].0 == es[k].1)),
    decreases es.len(),
{
    if es.len() == 0 {
    } else {
        let es0 = es.drop_last();
        lemma_partners_contains(es0, c, n);
        assert(es =~= es0.push(es.last()));
    }
}

/// An undirected cluster-adjacency graph in compressed sparse row form:
/// the neighbors of cluster `c` sit at `neighbors[offsets[c]..offsets[c+1]]`.
pub struct Adjacency {
    pub offsets: Vec<u32>,
    pub neighbors: Vec<u32>,
}

/// Structural validity of a CSR graph over `num_clusters` clusters.
pub open spec fn adj_wf(adj: Adjacency, num_clusters: int) -> bool {
    &&& adj.offsets@.len() == num_clusters + 1
    &&& adj.offsets@[0] == 0
    &&& forall|c: int| 0 <= c < num_clusters ==> #[trigger] adj.offsets@[c] <= adj.offsets@[c + 1]
    &&& num_clusters >= 0 ==> adj.offsets@[num_clusters] == adj.neighbors@.len()
    &&& forall|k: int| 0 <= k < adj.neighbors@.len() ==> (#[trigger] adj.neighbors@[k] as int)
        < num_clusters
}

/// `n` stands in the neighbor row of `c`.
pub open spec fn in_nbrs(adj: Adjacency, c: u32, n: u32) -> bool {
    exists|j: int|
        adj.offsets@[c as int] <= j < adj.offsets@[c as int + 1] && adj.neighbors@[j] == n
}

impl Adjacency {
    /// The neighbor row of one cluster.
    pub fn get_neighbors(&self, cluster_idx: u32) -> (r: &[u32])
        requires
            adj_wf(*self, self.offsets@.len() - 1),
            cluster_idx as int + 1 < self.offsets@.len(),
        ensures
            r@ == self.neighbors@.subrange(
                self.offsets@[cluster_idx as int] as int,
                self.offsets@[cluster_idx as int + 1] as int,
            ),
    {
        proof {
            let num = self.offsets@.len() - 1;
            lemma_offsets_mono(*self, num, cluster_idx as int + 1, num);
        }
        let n = self.offsets.len();
        assert(cluster_idx as int + 1 < n);
        let start = self.offsets[cluster_idx as usize] as usize;
        let end = self.offsets[cluster_idx as usize + 1] as usize;
        vstd::slice::slice_subrange(self.neighbors.as_slice(), start, end)
    }
}

/// Lays a deduplicated edge list out as CSR: per-cluster degrees by linear
/// scan, prefix sums into row offsets, then a running per-cluster cursor
/// fills the neighbor rows. The result carries both directions of every
/// edge and nothing else.
pub fn csr_from_edges(num_clusters: usize, edges: &Vec<(u32, u32)>) -> (adj: Adjacency)
    requires
        num_clusters <= 0x0040_0000,
        edges@.len() <= 0x2000_0000,
        edges@.no_duplicates(),
        forall|k: int|
            0 <= k < edges@.len() ==> (#[trigger] edges@[k]).0 < edges@[k].1 && (edges@[k].1 as int)
                < num_clusters as int,
    ensures
        adj_wf(adj, num_clusters as int),
        adj.neighbors@.len() == 2 * edges@.len(),
        forall|c: u32, n: u32|
            (c as int) < num_clusters as int ==> (#[trigger] in_nbrs(adj, c, n) <==> (
            edges@.contains((c, n)) || edges@.contains((n, c)))),
        forall|c: int, j1: int, j2: int|
            #![trigger adj.offsets@[c], adj.neighbors@[j1], adj.neighbors@[j2]]
            0 <= c < num_clusters as int && adj.offsets@[c] <= j1 < j2 < adj.offsets@[c + 1]
                ==> adj.neighbors@[j1] != adj.neighbors@[j2],
{
    let es = edges;
    let n_cl = num_clusters;

    // Degrees: offsets64[c + 1] counts the edges touching cluster c.
    let mut offsets64: Vec<u64> = Vec::new();
    let mut z: usize = 0;
    while z < n_cl + 1
        invariant
            n_cl <= 0x0040_0000,
            z <= n_cl + 1,
            offsets64@.len() == z,
            forall|j: int| 0 <= j < z ==> offsets64@[j] == 0u64,
        decreases n_cl + 1 - z,
    {
        offsets64.push(0u64);
        z = z + 1;
    }

    let mut e: usize = 0;
    while e < es.len()
        invariant
            n_cl <= 0x0040_0000,
            es@.len() <= 0x2000_0000,
            e <= es@.len(),
            offsets64@.len() == n_cl + 1,
            offsets64@[0] == 0u64,
            forall|c: int|
                0 <= c < n_cl ==> #[trigger] offsets64@[c + 1] == inc_count(
                    es@.take(e as int),
                    c as u32,
                ),
            forall|k: int|
                0 <= k < es@.len() ==> (#[trigger] es@[k]).0 < es@[k].1 && (es@[k].1 as int)
                    < n_cl as int,
        decreases es@.len() - e,
    {
        let (a, b) = es[e];
        proof {
            lemma_inc_count_bounds(es@.take(e as int), a);
            lemma_inc_count_bounds(es@.take(e as int), b);
        }
        let da = offsets64[a as usize + 1];
        offsets64[a as usize + 1] = da + 1;
        let db = offsets64[b as usize + 1];
        offsets64[b as usize + 1] = db + 1;
        proof {
            assert forall|c: int| 0 <= c < n_cl implies #[trigger] offsets64@[c + 1] == inc_count(
                es@.take(e + 1),
                c as u32,
            ) by {
                lemma_inc_count_take_step(es@, e as int, c as u32);
            }
        }
        e = e + 1;
    }
    proof {
        assert(es@.take(es@.len() as int) =~= es@);
        assert forall|j: int| 0 < j <= n_cl implies #[trigger] offsets64@[j] == inc_count(
            es@,
            (j - 1) as u32,
        ) by {
            assert(offsets64@[(j - 1) + 1] == inc_count(es@.take(es@.len() as int), (j - 1) as u32));
        }
    }

    // Prefix sums: offsets64[c] becomes the row offset of cluster c.
    let ghost all = es@;
    let mut i: usize = 0;
    while i < n_cl
        invariant
            n_cl <= 0x0040_0000,
            es@.len() <= 0x2000_0000,
            forall|k: int|
                0 <= k < es@.len() ==> (#[trigger] es@[k]).0 < es@[k].1 && (es@[k].1 as int)
                    < n_cl as int,
            i <= n_cl,
            offsets64@.len() == n_cl + 1,
            forall|j: int| 0 <= j <= i ==> #[trigger] offsets64@[j] == cum_degree(all, j),
            forall|j: int|
                i < j <= n_cl ==> #[trigger] offsets64@[j] == inc_count(all, (j - 1) as u32),
            all == es@,
        decreases n_cl - i,
    {
        proof {
            lemma_cum_degree_le_twice(all, i as int);
            lemma_inc_count_bounds(all, i as u32);
        }
        let base = offsets64[i];
        let step = offsets64[i + 1];
        offsets64[i + 1] = base + step;
        i = i + 1;
    }
    proof {
        lemma_cum_degree_le_twice(all, n_cl as int);
        assert(offsets64@[n_cl as int] == cum_degree(all, n_cl as int));
    }

    // Narrow the offsets to the 32-bit CSR form.
    let mut offsets: Vec<u32> = Vec::new();
    let mut oi: usize = 0;
    while oi < n_cl + 1
        invariant
            n_cl <= 0x0040_0000,
            es@.len() <= 0x2000_0000,
            forall|k: int|
                0 <= k < es@.len() ==> (#[trigger] es@[k]).0 < es@[k].1 && (es@[k].1 as int)
                    < n_cl as int,
            oi <= n_cl + 1,
            offsets@.len() == oi,
            offsets64@.len() == n_cl + 1,
            forall|j: int| 0 <= j <= n_cl ==> #[trigger] offsets64@[j] == cum_degree(all, j),
            forall|j: int| 0 <= j < oi ==> #[trigger] offsets@[j] == offsets64@[j] as u32,
            all == es@,
        decreases n_cl + 1 - oi,
    {
        proof {
            lemma_cum_degree_mono(all, oi as int, n_cl as int);
            lemma_cum_degree_le_twice(all, n_cl as int);
            lemma_cum_degree_mono(all, 0, oi as int);
        }
        let v64 = offsets64[oi];
        offsets.push(v64 as u32);
        oi = oi + 1;
    }

    // Neighbor storage, zero-filled to the total degree.
    let total64 = offsets64[n_cl];
    proof {
        lemma_cum_degree_le_twice(all, n_cl as int);
        lemma_cum_degree_mono(all, 0, n_cl as int);
    }
    let total = total64 as usize;
    let mut neighbors: Vec<u32> = Vec::new();
    let mut zn: usize = 0;
    while zn < total
        invariant
            zn <= total,
            neighbors@.len() == zn,
        decreases total - zn,
    {
        neighbors.push(0u32);
        zn = zn + 1;
    }

    // Fill the rows with a running cursor per cluster.
    let mut cursor: Vec<u64> = Vec::new();
    let mut ci: usize = 0;
    while ci < n_cl
        invariant
            n_cl <= 0x0040_0000,
            ci <= n_cl,
            cursor@.len() == ci,
            offsets64@.len() == n_cl + 1,
            forall|j: int| 0 <= j <= n_cl ==> #[trigger] offsets64@[j] == cum_degree(all, j),
            forall|j: int| 0 <= j < ci ==> #[trigger] cursor@[j] == cum_degree(all, j),
            all == es@,
        decreases n_cl - ci,
    {
        let v64 = offsets64[ci];
        cursor.push(v64);
        ci = ci + 1;
    }

    let mut e2: usize = 0;
    proof {
        assert(all.take(0) =~= Seq::<(u32, u32)>::empty());
        assert forall|c: int|
            0 <= c < n_cl implies neighbors@.subrange(
            cum_degree(all, c),
            cum_degree(all, c) + inc_count(all.take(0), c as u32),
        ) == partners(all.take(0), c as u32) by {
            lemma_cum_degree_mono(all, 0, c);
            lemma_cum_degree_mono(all, c, n_cl as int);
            assert(inc_count(all.take(0), c as u32) == 0);
            assert(partners(all.take(0), c as u32) =~= Seq::<u32>::empty());
            assert(neighbors@.subrange(cum_degree(all, c), cum_degree(all, c)) =~= Seq::<
                u32,
            >::empty());
        }
        assert forall|c: int| 0 <= c < n_cl implies #[trigger] cursor@[c] == cum_degree(all, c)
            + inc_count(all.take(0), c as u32) by {
            assert(inc_count(all.take(0), c as u32) == 0);
        }
    }
    while e2 < es.len()
        invariant
            n_cl <= 0x0040_0000,
            es@.len() <= 0x2000_0000,
            e2 <= es@.len(),
            all == es@,
            cursor@.len() == n_cl,
            neighbors@.len() == cum_degree(all, n_cl as int),
            forall|k: int|
                0 <= k < es@.len() ==> (#[trigger] es@[k]).0 < es@[k].1 && (es@[k].1 as int)
                    < n_cl as int,
            forall|c: int|
                0 <= c < n_cl ==> #[trigger] cursor@[c] == cum_degree(all, c) + inc_count(
                    all.take(e2 as int),
                    c as u32,
                ),
            forall|c: int|
                0 <= c < n_cl ==> neighbors@.subrange(
                    cum_degree(all, c),
                    cum_degree(all, c) + inc_count(all.take(e2 as int), c as u32),
                ) == partners(all.take(e2 as int), c as u32),
        decreases es@.len() - e2,
    {
        let (a, b) = es[e2];
        proof {
            lemma_fill_bounds(all, e2 as int, a as int, n_cl as int);
            lemma_fill_bounds(all, e2 as int, b as int, n_cl as int);
        }
        let ghost before = neighbors@;
        let slot_a = cursor[a as usize] as usize;
        neighbors[slot_a] = b;
        let ca = cursor[a as usize];
        cursor[a as usize] = ca + 1;
        let slot_b = cursor[b as usize] as usize;
        neighbors[slot_b] = a;
        let cb = cursor[b as usize];
        cursor[b as usize] = cb + 1;
        proof {
            lemma_inc_count_take_le(all, e2 + 1, a);
            lemma_inc_count_take_le(all, e2 + 1, b);
            assert forall|c: int|
                0 <= c < n_cl implies neighbors@.subrange(
                cum_degree(all, c),
                cum_degree(all, c) + inc_count(all.take(e2 + 1), c as u32),
            ) == partners(all.take(e2 + 1), c as u32) by {
                lemma_inc_count_take_step(all, e2 as int, c as u32);
                lemma_fill_regions(
                    all,
                    e2 as int,
                    c,
                    a as int,
                    b as int,
                    n_cl as int,
                    before,
                    neighbors@,
                    slot_a as int,
                    slot_b as int,
                );
            }
            assert forall|c: int| 0 <= c < n_cl implies #[trigger] cursor@[c] == cum_degree(all, c)
                + inc_count(all.take(e2 + 1), c as u32) by {
                lemma_inc_count_take_step(all, e2 as int, c as u32);
            }
        }
        e2 = e2 + 1;
    }
    proof {
        assert(all.take(all.len() as int) =~= all);
    }

    let adj = Adjacency { offsets, neighbors };
    proof {
        assert forall|j: int| 0 <= j <= n_cl implies (#[trigger] adj.offsets@[j] as int)
            == cum_degree(all, j) by {
            lemma_cum_degree_mono(all, j, n_cl as int);
            lemma_cum_degree_mono(all, 0, j);
            lemma_cum_degree_le_twice(all, n_cl as int);
        }
        assert forall|c: int| 0 <= c < n_cl implies #[trigger] adj.offsets@[c] <= adj.offsets@[c
            + 1] by {
            lemma_cum_degree_mono(all, c, c + 1);
        }
        assert forall|k: int| 0 <= k < adj.neighbors@.len() implies (
        #[trigger] adj.neighbors@[k] as int) < n_cl as int by {
            lemma_neighbor_slot(all, n_cl as int, adj.neighbors@, k);
        }
        assert(adj.neighbors@.len() == 2 * all.len()) by {
            lemma_cum_degree_exact(all, n_cl as int);
        }
        assert forall|c: int, j1: int, j2: int|
            #![trigger adj.offsets@[c], adj.neighbors@[j1], adj.neighbors@[j2]]
            0 <= c < n_cl as int && adj.offsets@[c] <= j1 < j2 < adj.offsets@[c + 1] implies
            adj.neighbors@[j1] != adj.neighbors@[j2] by {
            lemma_inc_count_bounds(all, c as u32);
            lemma_cum_degree_mono(all, 0, c);
            lemma_cum_degree_mono(all, c + 1, n_cl as int);
            assert(cum_degree(all, c + 1) == cum_degree(all, c) + inc_count(all, c as u32));
            let row = adj.neighbors@.subrange(
                cum_degree(all, c),
                cum_degree(all, c) + inc_count(all, c as u32),
            );
            assert(row == partners(all, c as u32));
            lemma_partners_no_dup(all, c as u32);
            assert(row[j1 - cum_degree(all, c)] == adj.neighbors@[j1]);
            assert(row[j2 - cum_degree(all, c)] == adj.neighbors@[j2]);
        }
        assert forall|c: u32, n: u32| (c as int) < n_cl as int implies (#[trigger] in_nbrs(
            adj,
            c,
            n,
        ) <==> (all.contains((c, n)) || all.contains((n, c)))) by {
            lemma_inc_count_bounds(all, c);
            lemma_cum_degree_mono(all, 0, c as int);
            lemma_cum_degree_mono(all, c as int + 1, n_cl as int);
            assert(cum_degree(all, c as int + 1) == cum_degree(all, c as int) + inc_count(all, c));
            let row = adj.neighbors@.subrange(
                cum_degree(all, c as int),
                cum_degree(all, c as int) + inc_count(all, c),
            );
            assert(row == partners(all, c));
            lemma_partners_contains(all, c, n);
            assert(forall|k: int| 0 <= k < all.len() ==> (#[trigger] all[k]).0 != all[k].1);
            assert(in_nbrs(adj, c, n) <==> row.contains(n)) by {
                if in_nbrs(adj, c, n) {
                    let j = choose|j: int|
                        adj.offsets@[c as int] <= j < adj.offsets@[c as int + 1]
                            && adj.neighbors@[j] == n;
                    assert(row[j - cum_degree(all, c as int)] == n);
                }
                if row.contains(n) {
                    let k = choose|k: int| 0 <= k < row.len() && row[k] == n;
                    assert(adj.neighbors@[cum_degree(all, c as int) + k] == n);
                }
            }
        }
    }
    adj
}

/// The write slot of an endpoint stays inside its row during the fill.
proof fn lemma_fill_bounds(all: Seq<(u32, u32)>, e: int, c: int, n_cl: int)
    requires
        0 <= e < all.len(),
        all.len() <= 0x2000_0000,
        0 <= c < n_cl <= 0x0040_0000,
        touches(all[e], c as u32),
        forall|k: int|
            0 <= k < all.len() ==> (#[trigger] all[k]).0 < all[k].1 && (all[k].1 as int) < n_cl,
    ensures
        cum_degree(all, c) + inc_count(all.take(e), c as u32) < cum_degree(all, c + 1),
        cum_degree(all, c + 1) <= cum_degree(all, n_cl),
        0 <= cum_degree(all, c),
        cum_degree(all, n_cl) <= 2 * all.len(),
    decreases 0int,
{
    lemma_inc_count_take_le(all, e, c as u32);
    lemma_inc_count_take_step(all, e, c as u32);
    lemma_inc_count_bounds(all.take(e), c as u32);
    lemma_inc_count_bounds(all, c as u32);
    lemma_cum_degree_mono(all, 0, c);
    lemma_cum_degree_mono(all, c + 1, n_cl);
    lemma_cum_degree_le_twice(all, n_cl);
    assert(inc_count(all.take(e), c as u32) < inc_count(all, c as u32)) by {
        lemma_inc_count_take_le(all, e + 1, c as u32);
    }
}

/// After writing one edge's two endpoints, every row still matches its
/// partner list.
proof fn lemma_fill_regions(
    all: Seq<(u32, u32)>,
    e: int,
    c: int,
    a: int,
    b: int,
    n_cl: int,
    before: Seq<u32>,
    after: Seq<u32>,
    slot_a: int,
    slot_b: int,
)
    requires
        0 <= e < all.len(),
        all.len() <= 0x2000_0000,
        0 <= c < n_cl <= 0x0040_0000,
        0 <= a < n_cl,
        0 <= b < n_cl,
        a < b,
        all[e] == ((a as u32), (b as u32)),
        forall|k: int|
            0 <= k < all.len() ==> (#[trigger] all[k]).0 < all[k].1 && (all[k].1 as int) < n_cl,
        before.len() == cum_degree(all, n_cl),
        slot_a == cum_degree(all, a) + inc_count(all.take(e), a as u32),
        slot_b == cum_degree(all, b) + inc_count(all.take(e), b as u32),
        after == before.update(slot_a, (b as u32)).update(slot_b, (a as u32)),
        forall|d: int|
            0 <= d < n_cl ==> before.subrange(
                cum_degree(all, d),
                cum_degree(all, d) + inc_count(all.take(e), d as u32),
            ) == partners(all.take(e), d as u32),
    ensures
        after.subrange(
            cum_degree(all, c),
            cum_degree(all, c) + inc_count(all.take(e + 1), c as u32),
        ) == partners(all.take(e + 1), c as u32),
    decreases 0int,
{
    lemma_fill_bounds(all, e, a, n_cl);
    lemma_fill_bounds(all, e, b, n_cl);
    lemma_inc_count_take_step(all, e, c as u32);
    lemma_inc_count_bounds(all.take(e), c as u32);
    lemma_inc_count_bounds(all.take(e), a as u32);
    lemma_inc_count_bounds(all.take(e), b as u32);
    lemma_inc_count_bounds(all.take(e + 1), c as u32);
    lemma_cum_degree_mono(all, a + 1, b);
    lemma_cum_degree_mono(all, c, c + 1);
    let lo = cum_degree(all, c);
    let hi_old = lo + inc_count(all.take(e), c as u32);
    let hi_new = lo + inc_count(all.take(e + 1), c as u32);
    let old_row = partners(all.take(e), c as u32);
    assert(before.subrange(lo, hi_old) == old_row);
    // The two write slots sit inside their own rows, which are disjoint.
    assert(cum_degree(all, a) <= slot_a < cum_degree(all, a + 1));
    assert(cum_degree(all, b) <= slot_b < cum_degree(all, b + 1));
    assert(slot_a < slot_b);
    if c == a {
        assert(hi_old == slot_a && hi_new == hi_old + 1);
        assert(hi_new <= cum_degree(all, c + 1)) by {
            lemma_inc_count_take_le(all, e + 1, c as u32);
        }
        assert forall|t: int| lo <= t < hi_new implies after[t] == old_row.push(b as u32)[t
            - lo] by {
            assert(t <= slot_a && t < slot_b);
            if t < hi_old {
                assert(after[t] == before[t]);
                assert(before.subrange(lo, hi_old)[t - lo] == before[t]);
            } else {
                assert(t == slot_a);
            }
        }
        assert(after.subrange(lo, hi_new) =~= old_row.push(b as u32));
        assert(partners(all.take(e + 1), c as u32) == old_row.push(b as u32)) by {
            assert(partners(all.take(e + 1), c as u32) =~= old_row + seq![b as u32]);
            assert(old_row + seq![b as u32] =~= old_row.push(b as u32));
        }
    } else if c == b {
        assert(hi_old == slot_b && hi_new == hi_old + 1);
        assert(hi_new <= cum_degree(all, c + 1)) by {
            lemma_inc_count_take_le(all, e + 1, c as u32);
        }
        assert forall|t: int| lo <= t < hi_new implies after[t] == old_row.push(a as u32)[t
            - lo] by {
            assert(t != slot_a);
            if t < hi_old {
                assert(after[t] == before[t]);
                assert(before.subrange(lo, hi_old)[t - lo] == before[t]);
            } else {
                assert(t == slot_b);
            }
        }
        assert(after.subrange(lo, hi_new) =~= old_row.push(a as u32));
        assert(partners(all.take(e + 1), c as u32) == old_row.push(a as u32)) by {
            assert(partners(all.take(e + 1), c as u32) =~= old_row + seq![a as u32]);
            assert(old_row + seq![a as u32] =~= old_row.push(a as u32));
        }
    } else {
        assert(hi_new == hi_old);
        lemma_inc_count_take_le(all, e, c as u32);
        assert(hi_old <= cum_degree(all, c + 1));
        lemma_cum_degree_mono(all, 0, c);
        lemma_cum_degree_mono(all, c + 1, n_cl);
        assert(hi_old <= before.len());
        if a < c {
            lemma_cum_degree_mono(all, a + 1, c);
        } else {
            lemma_cum_degree_mono(all, c + 1, a);
        }
        if b < c {
            lemma_cum_degree_mono(all, b + 1, c);
        } else {
            lemma_cum_degree_mono(all, c + 1, b);
        }
        assert forall|t: int| lo <= t < hi_new implies after[t] == old_row[t - lo] by {
            assert(t != slot_a && t != slot_b);
            assert(after[t] == before[t]);
            assert(before.subrange(lo, hi_old)[t - lo] == before[t]);
        }
        assert(after.subrange(lo, hi_new) =~= old_row);
        assert(partners(all.take(e + 1), c as u32) =~= old_row);
    }
}

/// Every stored neighbor is a valid cluster index.
proof fn lemma_neighbor_slot(all: Seq<(u32, u32)>, n_cl: int, neighbors: Seq<u32>, k: int)
    requires
        0 <= n_cl <= 0x0040_0000,
        all.len() <= 0x2000_0000,
        forall|kk: int|
            0 <= kk < all.len() ==> (#[trigger] all[kk]).0 < all[kk].1 && (all[kk].1 as int) < n_cl,
        neighbors.len() == cum_degree(all, n_cl),
        forall|d: int|
            0 <= d < n_cl ==> neighbors.subrange(
                cum_degree(all, d),
                cum_degree(all, d) + inc_count(all, d as u32),
            ) == partners(all, d as u32),
        0 <= k < neighbors.len(),
    ensures
        (neighbors[k] as int) < n_cl,
    decreases 0int,
{
    assert(exists|d: int| 0 <= d < n_cl && #[trigger] cum_degree(all, d) <= k < cum_degree(all, d + 1)) by {
        lemma_row_of_slot(all, n_cl, k);
    }
    let d = choose|d: int| 0 <= d < n_cl && #[trigger] cum_degree(all, d) <= k < cum_degree(all, d + 1);
    lemma_partners_elements(all, d as u32, n_cl);
    lemma_inc_count_bounds(all, d as u32);
    lemma_cum_degree_mono(all, 0, d);
    lemma_cum_degree_mono(all, d + 1, n_cl);
    assert(cum_degree(all, d + 1) == cum_degree(all, d) + inc_count(all, d as u32));
    let row = neighbors.subrange(cum_degree(all, d), cum_degree(all, d) + inc_count(all, d as u32));
    assert(row[k - cum_degree(all, d)] == neighbors[k]);
    assert(partners(all, d as u32)[k - cum_degree(all, d)] < n_cl);
}

/// Every slot below the total degree lies in some cluster's row.
proof fn lemma_row_of_slot(all: Seq<(u32, u32)>, n_cl: int, k: int)
    requires
        0 <= k < cum_degree(all, n_cl),
        n_cl >= 0,
    ensures
        exists|d: int| 0 <= d < n_cl && #[trigger] cum_degree(all, d) <= k < cum_degree(all, d + 1),
    decreases n_cl,
{
    if n_cl == 0 {
    } else {
        if k >= cum_degree(all, n_cl - 1) {
            assert(0 <= n_cl - 1 < n_cl && cum_degree(all, n_cl - 1) <= k < cum_degree(all, n_cl));
        } else {
            lemma_row_of_slot(all, n_cl - 1, k);
        }
    }
}

/// The sequence is a walk through the graph: consecutive entries are
/// neighbors.
pub open spec fn path_in(adj: Adjacency, p: Seq<u32>) -> bool {
    forall|i: int| 0 <= i && i + 1 < p.len() ==> in_nbrs(adj, #[trigger] p[i], p[i + 1])
}

/// `b` lies in the same component as `a`: some walk joins them.
pub open spec fn connected_in(adj: Adjacency, a: u32, b: u32) -> bool {
    exists|p: Seq<u32>|
        #[trigger] path_in(adj, p) && p.len() >= 1 && p[0] == a && p[p.len() - 1] == b
}

proof fn lemma_connected_refl(adj: Adjacency, a: u32)
    ensures
        connected_in(adj, a, a),
{
    let p = seq![a];
    assert(path_in(adj, p));
    assert(p.len() >= 1 && p[0] == a && p[p.len() - 1] == a);
}

proof fn lemma_connected_step(adj: Adjacency, a: u32, b: u32, c: u32)
    requires
        connected_in(adj, a, b),
        in_nbrs(adj, b, c),
    ensures
        connected_in(adj, a, c),
{
    let p = choose|p: Seq<u32>|
        #[trigger] path_in(adj, p) && p.len() >= 1 && p[0] == a && p[p.len() - 1] == b;
    let p2 = p.push(c);
    assert(path_in(adj, p2)) by {
        assert forall|i: int| 0 <= i && i + 1 < p2.len() implies in_nbrs(
            adj,
            #[trigger] p2[i],
            p2[i + 1],
        ) by {
            if i + 1 < p.len() {
                assert(p2[i] == p[i] && p2[i + 1] == p[i + 1]);
            } else {
                assert(p2[i] == p[p.len() - 1] && p2[i + 1] == c);
            }
        }
    }
    assert(p2.len() >= 1 && p2[0] == a && p2[p2.len() - 1] == c);
}

proof fn lemma_connected_prepend(adj: Adjacency, a: u32, b: u32, c: u32)
    requires
        connected_in(adj, b, c),
        in_nbrs(adj, a, b),
    ensures
        connected_in(adj, a, c),
{
    let p = choose|p: Seq<u32>|
        #[trigger] path_in(adj, p) && p.len() >= 1 && p[0] == b && p[p.len() - 1] == c;
    let p2 = seq![a] + p;
    assert(path_in(adj, p2)) by {
        assert forall|i: int| 0 <= i && i + 1 < p2.len() implies in_nbrs(
            adj,
            #[trigger] p2[i],
            p2[i + 1],
        ) by {
            if i == 0 {
                assert(p2[0] == a && p2[1] == p[0]);
            } else {
                assert(p2[i] == p[i - 1] && p2[i + 1] == p[i]);
            }
        }
    }
    assert(p2.len() >= 1 && p2[0] == a && p2[p2.len() - 1] == c);
}

/// The canonical (min, max) form of an undirected edge.
pub open spec fn canonical_edge(a: u32, b: u32) -> (u32, u32) {
    if a < b {
        (a, b)
    } else {
        (b, a)
    }
}

/// Every consecutive equal-vertex pair of the sorted entry list with
/// distinct clusters stands in the graph as an edge, both ways.
pub open spec fn consecutive_pairs_linked(adj: Adjacency, sorted: Seq<(u32, u32)>) -> bool {
    forall|t: int|
        0 <= t && t + 1 < sorted.len() && (#[trigger] sorted[t]).0 == sorted[t + 1].0 && sorted[t].1
            != sorted[t + 1].1 ==> in_nbrs(adj, sorted[t].1, sorted[t + 1].1) && in_nbrs(
            adj,
            sorted[t + 1].1,
            sorted[t].1,
        )
}

/// Inside one equal-vertex run of the sorted entry list, any two entries'
/// clusters are joined by a walk, in both directions.
proof fn lemma_run_connected(adj: Adjacency, sorted: Seq<(u32, u32)>, p: int, q: int)
    requires
        pairs_sorted(sorted),
        consecutive_pairs_linked(adj, sorted),
        0 <= p <= q < sorted.len(),
        sorted[p].0 == sorted[q].0,
    ensures
        connected_in(adj, sorted[p].1, sorted[q].1),
        connected_in(adj, sorted[q].1, sorted[p].1),
    decreases q - p,
{
    if p == q {
        lemma_connected_refl(adj, sorted[p].1);
    } else {
        assert(pair_le(sorted[p], sorted[q - 1]) && pair_le(sorted[q - 1], sorted[q]));
        assert(sorted[q - 1].0 == sorted[p].0);
        lemma_run_connected(adj, sorted, p, q - 1);
        if sorted[q - 1].1 == sorted[q].1 {
        } else {
            lemma_connected_step(adj, sorted[p].1, sorted[q - 1].1, sorted[q].1);
            lemma_connected_prepend(adj, sorted[q].1, sorted[q - 1].1, sorted[p].1);
        }
    }
}

proof fn lemma_push_contains_pair(s: Seq<(u32, u32)>, x: (u32, u32), y: (u32, u32))
    ensures
        s.push(x).contains(y) <==> (s.contains(y) || y == x),
{
    if s.push(x).contains(y) {
        let w = choose|w: int| 0 <= w < s.push(x).len() && s.push(x)[w] == y;
        if w < s.len() {
            assert(s[w] == y);
        }
    }
    if s.contains(y) {
        let w = choose|w: int| 0 <= w < s.len() && s[w] == y;
        assert(s.push(x)[w] == y);
    }
    assert(s.push(x)[s.len() as int] == x);
}

/// The entry list holds one (vertex, cluster) pair for every table entry
/// of every cluster of the level's prefix.
pub open spec fn all_entries_present(
    entries: Seq<(u32, u32)>,
    cluster_indices: Seq<u32>,
    mvi: Seq<u32>,
    table: Seq<(u32, u32)>,
    upto: int,
) -> bool {
    forall|t: int, k: int|
        0 <= t < upto && 0 <= k < table[cluster_indices[t] as int].1 ==> #[trigger] entries.contains(
            (mvi[table[cluster_indices[t] as int].0 + k], cluster_indices[t]),
        )
}

/// Every consecutive equal-vertex, distinct-cluster pair of the sorted
/// entry prefix has its canonical edge in the list.
pub open spec fn consecutive_edges_collected(
    raw: Seq<(u32, u32)>,
    sorted: Seq<(u32, u32)>,
    upto: int,
) -> bool {
    forall|t: int|
        0 <= t < upto && t + 1 < sorted.len() && (#[trigger] sorted[t]).0 == sorted[t + 1].0
            && sorted[t].1 != sorted[t + 1].1 ==> raw.contains(
            canonical_edge(sorted[t].1, sorted[t + 1].1),
        )
}

/// The cluster's vertex table (given by the per-cluster offset table into
/// the shared index array) holds the vertex `v`.
pub open spec fn cluster_has_vertex(
    c: u32,
    v: u32,
    mvi: Seq<u32>,
    table: Seq<(u32, u32)>,
) -> bool {
    exists|k: int|
        table[c as int].0 <= k < table[c as int].0 + table[c as int].1 && #[trigger] mvi[k] == v
}

/// The two clusters share at least one vertex: the meaning of adjacency.
pub open spec fn clusters_share_vertex(
    c1: u32,
    c2: u32,
    mvi: Seq<u32>,
    table: Seq<(u32, u32)>,
) -> bool {
    exists|v: u32|
        #[trigger] cluster_has_vertex(c1, v, mvi, table) && cluster_has_vertex(c2, v, mvi, table)
}

/// Builds the undirected adjacency graph over the clusters of one level.
///
/// Emits a (vertex, cluster) pair per vertex-table entry, sorts the pairs,
/// connects consecutive entries of each equal-vertex run in canonical
/// (min, max) order, sorts and dedupes the edges, and lays them out as CSR.
/// Every neighbor relation is symmetric, free of duplicates within a row,
/// and joins two distinct clusters of the level that share a vertex; and
/// any two clusters of the level that share a vertex are connected by a
/// walk, so the consecutive-pair emission preserves the components of the
/// full shared-vertex graph.
pub fn build_adjacency(
    num_clusters: usize,
    cluster_indices: &Vec<u32>,
    meshlet_vertex_indices: &Vec<u32>,
    cluster_vertex_offsets: &Vec<(u32, u32)>,
) -> (adj: Adjacency)
    requires
        num_clusters <= 0x0040_0000,
        cluster_indices@.len() <= 0x0020_0000,
        meshlet_vertex_indices@.len() <= 0x2000_0000,
        cluster_vertex_offsets@.len() == num_clusters,
        forall|i: int|
            0 <= i < cluster_indices@.len() ==> (#[trigger] cluster_indices@[i] as int)
                < num_clusters as int,
        forall|c: int|
            0 <= c < num_clusters ==> (#[trigger] cluster_vertex_offsets@[c]).0
                + cluster_vertex_offsets@[c].1 <= meshlet_vertex_indices@.len(),
        forall|c: int|
            0 <= c < num_clusters ==> (#[trigger] cluster_vertex_offsets@[c]).1 <= 0x100,
    ensures
        adj_wf(adj, num_clusters as int),
        forall|c: u32, n: u32|
            (c as int) < num_clusters as int && (n as int) < num_clusters as int ==> (
            #[trigger] in_nbrs(adj, c, n) <==> in_nbrs(adj, n, c)),
        forall|c: u32, n: u32|
            (c as int) < num_clusters as int && #[trigger] in_nbrs(adj, c, n) ==> {
                &&& n != c
                &&& cluster_indices@.contains(c)
                &&& cluster_indices@.contains(n)
                &&& clusters_share_vertex(c, n, meshlet_vertex_indices@, cluster_vertex_offsets@)
            },
        forall|c: int, j1: int, j2: int|
            #![trigger adj.offsets@[c], adj.neighbors@[j1], adj.neighbors@[j2]]
            0 <= c < num_clusters as int && adj.offsets@[c] <= j1 < j2 < adj.offsets@[c + 1]
                ==> adj.neighbors@[j1] != adj.neighbors@[j2],
        forall|c1: u32, c2: u32|
            cluster_indices@.contains(c1) && cluster_indices@.contains(c2) && #[trigger]
            clusters_share_vertex(c1, c2, meshlet_vertex_indices@, cluster_vertex_offsets@)
                ==> connected_in(adj, c1, c2),
{
    let ghost mvi = meshlet_vertex_indices@;
    let ghost table = cluster_vertex_offsets@;

    // 1. One (vertex, cluster) pair for every vertex of every cluster of
    // the level.
    let mut entries: Vec<(u32, u32)> = Vec::new();
    let mut i: usize = 0;
    while i < cluster_indices.len()
        invariant
            i <= cluster_indices@.len(),
            cluster_indices@.len() <= 0x0020_0000,
            num_clusters <= 0x0040_0000,
            mvi == meshlet_vertex_indices@,
            mvi.len() <= 0x2000_0000,
            table == cluster_vertex_offsets@,
            table.len() == num_clusters,
            entries@.len() <= i * 0x100,
            forall|t: int|
                0 <= t < cluster_indices@.len() ==> (#[trigger] cluster_indices@[t] as int)
                    < num_clusters as int,
            forall|c: int| 0 <= c < num_clusters ==> (#[trigger] table[c]).0 + table[c].1
                <= mvi.len(),
            forall|c: int| 0 <= c < num_clusters ==> (#[trigger] table[c]).1 <= 0x100,
            forall|i2: int|
                0 <= i2 < cluster_indices@.len() ==> cluster_indices@.contains(
                    #[trigger] cluster_indices@[i2],
                ),
            forall|t: int|
                0 <= t < entries@.len() ==> {
                    &&& ((#[trigger] entries@[t]).1 as int) < num_clusters as int
                    &&& cluster_indices@.contains(entries@[t].1)
                    &&& cluster_has_vertex(entries@[t].1, entries@[t].0, mvi, table)
                },
            all_entries_present(entries@, cluster_indices@, mvi, table, i as int),
        decreases cluster_indices@.len() - i,
    {
        let c = cluster_indices[i];
        let (off, cnt) = cluster_vertex_offsets[c as usize];
        let ghost entries_start = entries@.len();
        let mut k: u32 = 0;
        while k < cnt
            invariant
                k <= cnt,
                mvi == meshlet_vertex_indices@,
                table == cluster_vertex_offsets@,
                table.len() == num_clusters,
                (c as int) < num_clusters as int,
                cluster_indices@.contains(c),
                (off, cnt) == table[c as int],
                off + cnt <= mvi.len(),
                mvi.len() <= 0x2000_0000,
                cnt <= 0x100,
                entries@.len() == entries_start + k,
                entries_start <= 0x0020_0000 * 0x100,
                forall|c2: int| 0 <= c2 < num_clusters ==> (#[trigger] table[c2]).0 + table[c2].1
                    <= mvi.len(),
                forall|c2: int| 0 <= c2 < num_clusters ==> (#[trigger] table[c2]).1 <= 0x100,
                forall|t: int|
                    0 <= t < entries@.len() ==> {
                        &&& ((#[trigger] entries@[t]).1 as int) < num_clusters as int
                        &&& cluster_indices@.contains(entries@[t].1)
                        &&& cluster_has_vertex(entries@[t].1, entries@[t].0, mvi, table)
                    },
                all_entries_present(entries@, cluster_indices@, mvi, table, i as int),
                forall|k2: int|
                    0 <= k2 < k ==> #[trigger] entries@.contains((mvi[table[c as int].0 + k2], c)),
            decreases cnt - k,
        {
            let v = meshlet_vertex_indices[(off + k) as usize];
            let ghost entries_before = entries@;
            entries.push((v, c));
            proof {
                assert(cluster_has_vertex(c, v, mvi, table)) by {
                    assert(mvi[off + k as int] == v);
                }
                assert forall|x: (u32, u32)| entries_before.contains(x) implies entries@.contains(
                    x,
                ) by {
                    lemma_push_contains_pair(entries_before, (v, c), x);
                }
                assert(entries@.contains((v, c))) by {
                    lemma_push_contains_pair(entries_before, (v, c), (v, c));
                }
                assert(all_entries_present(entries@, cluster_indices@, mvi, table, i as int));
            }
            k = k + 1;
        }
        i = i + 1;
        proof {
            assert(entries@.len() <= i * 0x100) by (nonlinear_arith)
                requires
                    entries@.len() <= (i - 1) * 0x100 + 0x100,
                    i >= 1,
            ;
            assert(all_entries_present(entries@, cluster_indices@, mvi, table, i as int)) by {
                assert forall|t: int, k2: int|
                    0 <= t < i as int && 0 <= k2 < table[cluster_indices@[t] as int].1 implies
                    #[trigger] entries@.contains(
                    (mvi[table[cluster_indices@[t] as int].0 + k2], cluster_indices@[t]),
                ) by {
                    if t == i - 1 {
                        assert(cluster_indices@[t] == c);
                        assert(entries@.contains((mvi[table[c as int].0 + k2], c)));
                    }
                }
            }
        }
    }

    // 2. Sort by vertex id (full lexicographic order for determinism).
    let sorted = sort_pairs(&entries);

    // 3. Consecutive entries of an equal-vertex run become edges in
    // canonical (min, max) order.
    let mut raw: Vec<(u32, u32)> = Vec::new();
    let mut j: usize = 0;
    while j + 1 < sorted.len()
        invariant
            sorted@.len() <= 0x0020_0000 * 0x100,
            j <= sorted@.len(),
            raw@.len() <= j,
            mvi == meshlet_vertex_indices@,
            table == cluster_vertex_offsets@,
            forall|t: int|
                0 <= t < sorted@.len() ==> {
                    &&& ((#[trigger] sorted@[t]).1 as int) < num_clusters as int
                    &&& cluster_indices@.contains(sorted@[t].1)
                    &&& cluster_has_vertex(sorted@[t].1, sorted@[t].0, mvi, table)
                },
            forall|t: int|
                0 <= t < raw@.len() ==> {
                    &&& (#[trigger] raw@[t]).0 < raw@[t].1
                    &&& (raw@[t].1 as int) < num_clusters as int
                    &&& cluster_indices@.contains(raw@[t].0)
                    &&& cluster_indices@.contains(raw@[t].1)
                    &&& clusters_share_vertex(raw@[t].0, raw@[t].1, mvi, table)
                },
            consecutive_edges_collected(raw@, sorted@, j as int),
        decreases sorted@.len() - j,
    {
        let x = sorted[j];
        let y = sorted[j + 1];
        let ghost raw_before = raw@;
        if x.0 == y.0 && x.1 != y.1 {
            let a = if x.1 < y.1 {
                x.1
            } else {
                y.1
            };
            let b = if x.1 < y.1 {
                y.1
            } else {
                x.1
            };
            proof {
                assert(clusters_share_vertex(a, b, mvi, table)) by {
                    assert(cluster_has_vertex(x.1, x.0, mvi, table));
                    assert(cluster_has_vertex(y.1, y.0, mvi, table));
                }
            }
            raw.push((a, b));
            proof {
                assert forall|e: (u32, u32)| raw_before.contains(e) implies raw@.contains(e) by {
                    lemma_push_contains_pair(raw_before, (a, b), e);
                }
                assert(raw@.contains((a, b))) by {
                    lemma_push_contains_pair(raw_before, (a, b), (a, b));
                }
                assert((a, b) == canonical_edge(sorted@[j as int].1, sorted@[j as int + 1].1));
            }
        }
        j = j + 1;
        proof {
            assert(consecutive_edges_collected(raw@, sorted@, j as int)) by {
                assert forall|t: int|
                    0 <= t < j as int && t + 1 < sorted@.len() && (#[trigger] sorted@[t]).0
                        == sorted@[t + 1].0 && sorted@[t].1 != sorted@[t + 1].1 implies raw@.contains(
                    canonical_edge(sorted@[t].1, sorted@[t + 1].1),
                ) by {
                    if t < j as int - 1 {
                        assert(raw_before.contains(canonical_edge(sorted@[t].1, sorted@[t + 1].1))
                            || raw@.contains(canonical_edge(sorted@[t].1, sorted@[t + 1].1)));
                    }
                }
            }
        }
    }

    // 4. Sort and dedupe the edge list.
    let sorted_edges = sort_pairs(&raw);
    let edges = dedup_pairs(&sorted_edges);
    proof {
        assert forall|t: int| 0 <= t < edges@.len() implies {
            &&& (#[trigger] edges@[t]).0 < edges@[t].1
            &&& (edges@[t].1 as int) < num_clusters as int
            &&& cluster_indices@.contains(edges@[t].0)
            &&& cluster_indices@.contains(edges@[t].1)
            &&& clusters_share_vertex(edges@[t].0, edges@[t].1, mvi, table)
        } by {
            assert(sorted_edges@.contains(edges@[t]));
            let u = choose|u: int| 0 <= u < sorted_edges@.len() && sorted_edges@[u] == edges@[t];
            assert(raw@.contains(sorted_edges@[u]));
            let w = choose|w: int| 0 <= w < raw@.len() && raw@[w] == sorted_edges@[u];
            assert(raw@[w] == edges@[t]);
        }
    }

    // 5. CSR layout with both directions of every edge.
    let adj = csr_from_edges(num_clusters, &edges);
    proof {
        assert forall|c: u32, n: u32|
            (c as int) < num_clusters as int && #[trigger] in_nbrs(adj, c, n) implies {
            &&& n != c
            &&& cluster_indices@.contains(c)
            &&& cluster_indices@.contains(n)
            &&& clusters_share_vertex(c, n, mvi, table)
        } by {
            if edges@.contains((c, n)) {
                let t = choose|t: int| 0 <= t < edges@.len() && edges@[t] == (c, n);
            } else {
                assert(edges@.contains((n, c)));
                let t = choose|t: int| 0 <= t < edges@.len() && edges@[t] == (n, c);
                assert(clusters_share_vertex(n, c, mvi, table));
                let v = choose|v: u32|
                    #[trigger] cluster_has_vertex(n, v, mvi, table) && cluster_has_vertex(
                        c,
                        v,
                        mvi,
                        table,
                    );
                assert(clusters_share_vertex(c, n, mvi, table));
            }
        }
        lemma_level_components_preserved(
            adj,
            num_clusters as int,
            cluster_indices@,
            mvi,
            table,
            entries@,
            sorted@,
            raw@,
            sorted_edges@,
            edges@,
        );
    }
    adj
}

/// Two clusters of the level that share a vertex appear in one equal-vertex
/// run of the sorted entry list, whose consecutive-pair edges survive the
/// sort, the dedup and the CSR layout; walking the run connects them.
#[verifier::rlimit(100)]
#[verifier::spinoff_prover]
proof fn lemma_level_components_preserved(
    adj: Adjacency,
    num_clusters: int,
    cluster_indices: Seq<u32>,
    mvi: Seq<u32>,
    table: Seq<(u32, u32)>,
    entries: Seq<(u32, u32)>,
    sorted: Seq<(u32, u32)>,
    raw: Seq<(u32, u32)>,
    sorted_edges: Seq<(u32, u32)>,
    edges: Seq<(u32, u32)>,
)
    requires
        pairs_sorted(sorted),
        sorted.to_multiset() == entries.to_multiset(),
        all_entries_present(entries, cluster_indices, mvi, table, cluster_indices.len() as int),
        consecutive_edges_collected(raw, sorted, sorted.len() as int),
        sorted_edges.to_multiset() == raw.to_multiset(),
        forall|x: (u32, u32)| edges.contains(x) <==> sorted_edges.contains(x),
        forall|t: int|
            0 <= t < sorted.len() ==> ((#[trigger] sorted[t]).1 as int) < num_clusters,
        forall|i: int|
            0 <= i < cluster_indices.len() ==> (#[trigger] cluster_indices[i] as int)
                < num_clusters,
        forall|c: u32, n: u32|
            (c as int) < num_clusters ==> (#[trigger] in_nbrs(adj, c, n) <==> (edges.contains(
                (c, n),
            ) || edges.contains((n, c)))),
    ensures
        forall|c1: u32, c2: u32|
            cluster_indices.contains(c1) && cluster_indices.contains(c2) && #[trigger]
            clusters_share_vertex(c1, c2, mvi, table) ==> connected_in(adj, c1, c2),
{
    broadcast use vstd::seq_lib::group_to_multiset_ensures;

    assert(consecutive_pairs_linked(adj, sorted)) by {
        assert forall|t: int|
            0 <= t && t + 1 < sorted.len() && (#[trigger] sorted[t]).0 == sorted[t + 1].0
                && sorted[t].1 != sorted[t + 1].1 implies in_nbrs(adj, sorted[t].1, sorted[t + 1].1)
            && in_nbrs(adj, sorted[t + 1].1, sorted[t].1) by {
            let ce = canonical_edge(sorted[t].1, sorted[t + 1].1);
            assert(raw.contains(ce));
            assert(sorted_edges.to_multiset().count(ce) > 0);
            assert(sorted_edges.contains(ce));
            assert(edges.contains(ce));
        }
    }
    assert forall|c1: u32, c2: u32|
        cluster_indices.contains(c1) && cluster_indices.contains(c2) && #[trigger]
        clusters_share_vertex(c1, c2, mvi, table) implies connected_in(adj, c1, c2) by {
        let v = choose|v: u32|
            #[trigger] cluster_has_vertex(c1, v, mvi, table) && cluster_has_vertex(
                c2,
                v,
                mvi,
                table,
            );
        let t1 = choose|t: int| 0 <= t < cluster_indices.len() && cluster_indices[t] == c1;
        let t2 = choose|t: int| 0 <= t < cluster_indices.len() && cluster_indices[t] == c2;
        let k1 = choose|k: int|
            table[c1 as int].0 <= k < table[c1 as int].0 + table[c1 as int].1 && #[trigger] mvi[k]
                == v;
        let k2 = choose|k: int|
            table[c2 as int].0 <= k < table[c2 as int].0 + table[c2 as int].1 && #[trigger] mvi[k]
                == v;
        assert(entries.contains(
            (mvi[table[cluster_indices[t1] as int].0 + (k1 - table[c1 as int].0)],
            cluster_indices[t1]),
        ));
        assert(entries.contains((v, c1)));
        assert(entries.contains(
            (mvi[table[cluster_indices[t2] as int].0 + (k2 - table[c2 as int].0)],
            cluster_indices[t2]),
        ));
        assert(entries.contains((v, c2)));
        assert(sorted.to_multiset().count((v, c1)) > 0);
        assert(sorted.contains((v, c1)));
        assert(sorted.to_multiset().count((v, c2)) > 0);
        assert(sorted.contains((v, c2)));
        let p = choose|p: int| 0 <= p < sorted.len() && sorted[p] == (v, c1);
        let q = choose|q: int| 0 <= q < sorted.len() && sorted[q] == (v, c2);
        if p <= q {
            lemma_run_connected(adj, sorted, p, q);
        } else {
            lemma_run_connected(adj, sorted, q, p);
        }
    }
}

/// One BFS-connected group of clusters, simplified together to form the
/// clusters of the next coarser level.
pub struct ClusterGroup {
    pub cluster_indices: Vec<u32>,
}

/// How many clusters are still unvisited.
pub open spec fn count_unvisited(s: Seq<bool>) -> nat
    decreases s.len(),
{
    if s.len() == 0 {
        0
    } else {
        count_unvisited(s.drop_last()) + if s.last() {
            0nat
        } else {
            1nat
        }
    }
}

proof fn lemma_count_unvisited_set(s: Seq<bool>, i: int)
    requires
        0 <= i < s.len(),
        !s[i],
    ensures
        count_unvisited(s.update(i, true)) + 1 == count_unvisited(s),
    decreases s.len(),
{
    if i == s.len() - 1 {
        assert(s.update(i, true).drop_last() =~= s.drop_last());
    } else {
        assert(s.update(i, true).drop_last() =~= s.drop_last().update(i, true));
        lemma_count_unvisited_set(s.drop_last(), i);
    }
}

proof fn lemma_push_contains(s: Seq<u32>, x: u32, v: u32)
    ensures
        s.push(x).contains(v) <==> (s.contains(v) || v == x),
{
    if s.push(x).contains(v) {
        let w = choose|w: int| 0 <= w < s.push(x).len() && s.push(x)[w] == v;
        if w < s.len() {
            assert(s[w] == v);
        }
    }
    if s.contains(v) {
        let w = choose|w: int| 0 <= w < s.len() && s[w] == v;
        assert(s.push(x)[w] == v);
    }
    assert(s.push(x)[s.len() as int] == x);
}

/// `v` stands in the finished groups or in the group under construction.
pub open spec fn appears(groups: Seq<ClusterGroup>, cur: Seq<u32>, v: u32) -> bool {
    cur.contains(v) || exists|g: int|
        0 <= g < groups.len() && (#[trigger] groups[g].cluster_indices@).contains(v)
}

/// Every member of the group after the first is adjacent to an earlier
/// member: the group grew by BFS expansion through the adjacency graph.
pub open spec fn group_connected(adj: Adjacency, g: ClusterGroup) -> bool {
    forall|k: int|
        1 <= k < g.cluster_indices@.len() ==> exists|k2: int|
            0 <= k2 < k && in_nbrs(adj, g.cluster_indices@[k2], #[trigger] g.cluster_indices@[k])
}

/// The cluster stands in one of the first `upto + 1` groups.
pub open spec fn in_prefix_groups(groups: Seq<ClusterGroup>, upto: int, v: u32) -> bool {
    exists|g: int| 0 <= g <= upto && (#[trigger] groups[g].cluster_indices@).contains(v)
}

/// The cluster is already visited or still waits in the live part of the
/// BFS queue.
pub open spec fn neighbor_pending(visited: Seq<bool>, queue: Seq<u32>, head: int, n: u32) -> bool {
    visited[n as int] || exists|q: int| head <= q < queue.len() && #[trigger] queue[q] == n
}

/// Every in-level neighbor of every collected member is visited or
/// pending: nothing reachable is silently dropped.
pub open spec fn members_neighbors_pending(
    cur: Seq<u32>,
    adj: Adjacency,
    level: Seq<u32>,
    visited: Seq<bool>,
    queue: Seq<u32>,
    head: int,
) -> bool {
    forall|k: int, j: int|
        #![trigger cur[k], adj.neighbors@[j]]
        0 <= k < cur.len() && adj.offsets@[cur[k] as int] <= j < adj.offsets@[cur[k] as int + 1]
            && level.contains(adj.neighbors@[j]) ==> neighbor_pending(
            visited,
            queue,
            head,
            adj.neighbors@[j],
        )
}

/// Groups below the size budget are maximal: every in-level cluster
/// adjacent to a member already stands in this group or an earlier one.
pub open spec fn small_groups_maximal(
    groups: Seq<ClusterGroup>,
    adj: Adjacency,
    level: Seq<u32>,
    target: int,
) -> bool {
    forall|g: int, k: int, j: int|
        #![trigger groups[g].cluster_indices@[k], adj.neighbors@[j]]
        0 <= g < groups.len() && groups[g].cluster_indices@.len() < target && 0 <= k
            < groups[g].cluster_indices@.len() && adj.offsets@[groups[g].cluster_indices@[k] as int]
            <= j < adj.offsets@[groups[g].cluster_indices@[k] as int + 1] && level.contains(
            adj.neighbors@[j],
        ) ==> in_prefix_groups(groups, g, adj.neighbors@[j])
}

proof fn lemma_pending_push(visited: Seq<bool>, queue: Seq<u32>, head: int, n: u32, m: u32)
    requires
        0 <= head,
        neighbor_pending(visited, queue, head, m),
    ensures
        neighbor_pending(visited, queue.push(n), head, m),
{
    if !visited[m as int] {
        let q = choose|q: int| head <= q < queue.len() && #[trigger] queue[q] == m;
        assert(queue.push(n)[q] == m);
    }
}

/// Splits the clusters of one level into disjoint, BFS-connected groups of
/// at most `target_group_size`. Every cluster of the level lands in exactly
/// one group; every group member after the first is adjacent to an earlier
/// member of its group; and a group below the budget is maximal: everything
/// of the level adjacent to it already stands in it or in an earlier group.
#[verifier::rlimit(100)]
pub fn partition_clusters(
    num_clusters: usize,
    cluster_indices: &Vec<u32>,
    adj: &Adjacency,
    target_group_size: usize,
) -> (groups: Vec<ClusterGroup>)
    requires
        num_clusters <= 0x0040_0000,
        adj_wf(*adj, num_clusters as int),
        target_group_size >= 1,
        forall|i: int|
            0 <= i < cluster_indices@.len() ==> (#[trigger] cluster_indices@[i] as int)
                < num_clusters as int,
    ensures
        forall|g: int, k: int|
            0 <= g < groups@.len() && 0 <= k < groups@[g].cluster_indices@.len()
                ==> cluster_indices@.contains(#[trigger] groups@[g].cluster_indices@[k]),
        forall|g: int|
            0 <= g < groups@.len() ==> 1 <= (#[trigger] groups@[g].cluster_indices@).len()
                <= target_group_size,
        forall|t: int|
            0 <= t < cluster_indices@.len() ==> appears(groups@, Seq::empty(), #[trigger]
            cluster_indices@[t]),
        forall|g1: int, k1: int, g2: int, k2: int|
            0 <= g1 < groups@.len() && 0 <= k1 < groups@[g1].cluster_indices@.len() && 0 <= g2
                < groups@.len() && 0 <= k2 < groups@[g2].cluster_indices@.len() && (#[trigger]
            groups@[g1].cluster_indices@[k1]) == (#[trigger] groups@[g2].cluster_indices@[k2]) ==> (
            g1 == g2 && k1 == k2),
        forall|g: int| 0 <= g < groups@.len() ==> group_connected(*adj, #[trigger] groups@[g]),
        small_groups_maximal(groups@, *adj, cluster_indices@, target_group_size as int),
{
    let mut visited: Vec<bool> = Vec::new();
    let mut z: usize = 0;
    while z < num_clusters
        invariant
            z <= num_clusters,
            visited@.len() == z,
            forall|v: int| 0 <= v < z ==> !(#[trigger] visited@[v]),
        decreases num_clusters - z,
    {
        visited.push(false);
        z = z + 1;
    }

    let mut in_level: Vec<bool> = Vec::new();
    let mut z2: usize = 0;
    while z2 < num_clusters
        invariant
            z2 <= num_clusters,
            in_level@.len() == z2,
            forall|v: int| 0 <= v < z2 ==> !(#[trigger] in_level@[v]),
        decreases num_clusters - z2,
    {
        in_level.push(false);
        z2 = z2 + 1;
    }
    let mut m: usize = 0;
    while m < cluster_indices.len()
        invariant
            num_clusters <= 0x0040_0000,
            m <= cluster_indices@.len(),
            in_level@.len() == num_clusters,
            forall|i: int|
                0 <= i < cluster_indices@.len() ==> (#[trigger] cluster_indices@[i] as int)
                    < num_clusters as int,
            forall|v: int|
                0 <= v < num_clusters ==> ((#[trigger] in_level@[v]) <==> cluster_indices@.take(
                    m as int,
                ).contains(v as u32)),
        decreases cluster_indices@.len() - m,
    {
        let c = cluster_indices[m];
        in_level[c as usize] = true;
        proof {
            assert(cluster_indices@.take(m + 1) =~= cluster_indices@.take(m as int).push(
                cluster_indices@[m as int],
            ));
            assert forall|v: int| 0 <= v < num_clusters implies ((#[trigger] in_level@[v])
                <==> cluster_indices@.take(m + 1).contains(v as u32)) by {
                lemma_push_contains(cluster_indices@.take(m as int), c, v as u32);
            }
        }
        m = m + 1;
    }
    proof {
        assert(cluster_indices@.take(cluster_indices@.len() as int) =~= cluster_indices@);
    }

    let mut groups: Vec<ClusterGroup> = Vec::new();
    let mut t: usize = 0;
    while t < cluster_indices.len()
        invariant
            num_clusters <= 0x0040_0000,
            t <= cluster_indices@.len(),
            adj_wf(*adj, num_clusters as int),
            target_group_size >= 1,
            visited@.len() == num_clusters,
            in_level@.len() == num_clusters,
            forall|i: int|
                0 <= i < cluster_indices@.len() ==> (#[trigger] cluster_indices@[i] as int)
                    < num_clusters as int,
            forall|v: int|
                0 <= v < num_clusters ==> ((#[trigger] in_level@[v]) <==> cluster_indices@.contains(
                    v as u32,
                )),
            forall|v: int|
                0 <= v < num_clusters ==> ((#[trigger] visited@[v]) <==> appears(
                    groups@,
                    Seq::empty(),
                    v as u32,
                )),
            forall|t2: int|
                0 <= t2 < t ==> #[trigger] visited@[cluster_indices@[t2] as int],
            forall|g: int, k: int|
                0 <= g < groups@.len() && 0 <= k < groups@[g].cluster_indices@.len()
                    ==> cluster_indices@.contains(#[trigger] groups@[g].cluster_indices@[k])
                    && (groups@[g].cluster_indices@[k] as int) < num_clusters as int,
            forall|g: int|
                0 <= g < groups@.len() ==> 1 <= (#[trigger] groups@[g].cluster_indices@).len()
                    <= target_group_size,
            forall|g1: int, k1: int, g2: int, k2: int|
                0 <= g1 < groups@.len() && 0 <= k1 < groups@[g1].cluster_indices@.len() && 0 <= g2
                    < groups@.len() && 0 <= k2 < groups@[g2].cluster_indices@.len() && (#[trigger]
                groups@[g1].cluster_indices@[k1]) == (#[trigger] groups@[g2].cluster_indices@[k2])
                    ==> (g1 == g2 && k1 == k2),
            forall|g: int| 0 <= g < groups@.len() ==> group_connected(*adj, #[trigger] groups@[g]),
            small_groups_maximal(groups@, *adj, cluster_indices@, target_group_size as int),
        decreases cluster_indices@.len() - t,
    {
        let seed = cluster_indices[t];
        if !visited[seed as usize] {
            let mut cur: Vec<u32> = Vec::new();
            let mut queue: Vec<u32> = Vec::new();
            queue.push(seed);
            let mut head: usize = 0;
            while head < queue.len() && cur.len() < target_group_size
                invariant
                    num_clusters <= 0x0040_0000,
                    adj_wf(*adj, num_clusters as int),
                    target_group_size >= 1,
                    visited@.len() == num_clusters,
                    in_level@.len() == num_clusters,
                    head <= queue@.len(),
                    (seed as int) < num_clusters as int,
                    cluster_indices@.contains(seed),
                    forall|i: int|
                        0 <= i < cluster_indices@.len() ==> (#[trigger] cluster_indices@[i] as int)
                            < num_clusters as int,
                    forall|v: int|
                        0 <= v < num_clusters ==> ((#[trigger] in_level@[v])
                            <==> cluster_indices@.contains(v as u32)),
                    forall|v: int|
                        0 <= v < num_clusters ==> ((#[trigger] visited@[v]) <==> appears(
                            groups@,
                            cur@,
                            v as u32,
                        )),
                    forall|t2: int|
                        0 <= t2 < t ==> #[trigger] visited@[cluster_indices@[t2] as int],
                    head == 0 ==> (cur@.len() == 0 && queue@.len() == 1 && queue@[0] == seed
                        && !visited@[seed as int]),
                    head > 0 ==> cur@.len() >= 1,
                    head > 0 ==> visited@[seed as int],
                    forall|j: int|
                        0 <= j < queue@.len() ==> ((#[trigger] queue@[j] as int)
                            < num_clusters as int && cluster_indices@.contains(queue@[j])),
                    forall|j: int|
                        head <= j < queue@.len() ==> ((cur@.len() == 0 && #[trigger] queue@[j]
                            == seed) || exists|k2: int|
                            0 <= k2 < cur@.len() && in_nbrs(*adj, cur@[k2], queue@[j])),
                    cur@.no_duplicates(),
                    cur@.len() <= target_group_size,
                    forall|k: int|
                        0 <= k < cur@.len() ==> ((#[trigger] cur@[k] as int) < num_clusters as int
                            && visited@[cur@[k] as int] && cluster_indices@.contains(cur@[k])),
                    forall|k: int, g: int|
                        0 <= k < cur@.len() && 0 <= g < groups@.len() ==> !(
                        #[trigger] groups@[g].cluster_indices@).contains(#[trigger] cur@[k]),
                    forall|k: int|
                        1 <= k < cur@.len() ==> exists|k2: int|
                            0 <= k2 < k && in_nbrs(*adj, cur@[k2], #[trigger] cur@[k]),
                    members_neighbors_pending(cur@, *adj, cluster_indices@, visited@, queue@,
                        head as int),
                    forall|g: int, k: int|
                        0 <= g < groups@.len() && 0 <= k < groups@[g].cluster_indices@.len()
                            ==> cluster_indices@.contains(#[trigger] groups@[g].cluster_indices@[k])
                            && (groups@[g].cluster_indices@[k] as int) < num_clusters as int,
                    forall|g: int|
                        0 <= g < groups@.len() ==> 1 <= (
                        #[trigger] groups@[g].cluster_indices@).len() <= target_group_size,
                    forall|g1: int, k1: int, g2: int, k2: int|
                        0 <= g1 < groups@.len() && 0 <= k1 < groups@[g1].cluster_indices@.len() && 0
                            <= g2 < groups@.len() && 0 <= k2 < groups@[g2].cluster_indices@.len()
                            && (#[trigger] groups@[g1].cluster_indices@[k1]) == (#[trigger]
                        groups@[g2].cluster_indices@[k2]) ==> (g1 == g2 && k1 == k2),
                    forall|g: int|
                        0 <= g < groups@.len() ==> group_connected(*adj, #[trigger] groups@[g]),
                    small_groups_maximal(groups@, *adj, cluster_indices@,
                        target_group_size as int),
                decreases count_unvisited(visited@), queue@.len() - head,
            {
                let ghost cur_before = cur@;
                let ghost head_before = head as int;
                let ghost queue_before = queue@;
                let ghost visited_before = visited@;
                let idx = queue[head];
                head = head + 1;
                if !visited[idx as usize] {
                    proof {
                        lemma_count_unvisited_set(visited@, idx as int);
                    }
                    visited[idx as usize] = true;
                    proof {
                        assert forall|v: int| 0 <= v < num_clusters implies ((#[trigger] visited@[v])
                            <==> appears(groups@, cur@.push(idx), v as u32)) by {
                            lemma_push_contains(cur@, idx, v as u32);
                        }
                    }
                    cur.push(idx);
                    proof {
                        // The new member joins through an edge to an earlier
                        // member, unless it is the seed of an empty group.
                        assert forall|k: int| 1 <= k < cur@.len() implies exists|k2: int|
                            0 <= k2 < k && in_nbrs(*adj, cur@[k2], #[trigger] cur@[k]) by {
                            if k < cur_before.len() {
                                let k2 = choose|k2: int|
                                    0 <= k2 < k && in_nbrs(*adj, cur_before[k2], cur_before[k]);
                                assert(cur@[k2] == cur_before[k2] && cur@[k] == cur_before[k]);
                            } else {
                                assert(cur@[k] == idx);
                                assert(!(cur_before.len() == 0 && queue_before[head_before]
                                    == seed));
                                let k2 = choose|k2: int|
                                    0 <= k2 < cur_before.len() && in_nbrs(
                                        *adj,
                                        cur_before[k2],
                                        queue_before[head_before],
                                    );
                                assert(cur@[k2] == cur_before[k2]);
                            }
                        }
                        // Pending queue entries keep their group contact.
                        assert forall|j: int| head <= j < queue@.len() implies exists|k2: int|
                            0 <= k2 < cur@.len() && in_nbrs(*adj, cur@[k2], #[trigger] queue@[j]) by {
                            if cur_before.len() == 0 {
                                assert(head_before == 0 && queue_before.len() == 1);
                                assert(queue@ == queue_before && head == 1);
                                assert(false);
                            } else {
                                let k2 = choose|k2: int|
                                    0 <= k2 < cur_before.len() && in_nbrs(
                                        *adj,
                                        cur_before[k2],
                                        queue_before[j],
                                    );
                                assert(cur@[k2] == cur_before[k2]);
                            }
                        }
                        // Earlier members keep their pending neighbors
                        // after the pop: the popped entry is this member.
                        assert forall|k: int, j: int|
                            #![trigger cur@[k], adj.neighbors@[j]]
                            0 <= k < cur@.len() - 1 && adj.offsets@[cur@[k] as int] <= j
                                < adj.offsets@[cur@[k] as int + 1] && cluster_indices@.contains(
                                adj.neighbors@[j],
                            ) implies neighbor_pending(visited@, queue@, head as int,
                            adj.neighbors@[j]) by {
                            assert(cur@[k] == cur_before[k]);
                            assert(neighbor_pending(visited_before, queue_before, head_before,
                                adj.neighbors@[j]));
                            let n = adj.neighbors@[j];
                            if !visited_before[n as int] {
                                let q = choose|q: int|
                                    head_before <= q < queue_before.len() && #[trigger]
                                    queue_before[q] == n;
                                if q == head_before {
                                    assert(n == idx);
                                } else {
                                    assert(queue@[q] == n && head as int <= q);
                                }
                            }
                        }
                    }
                    let start = adj.offsets[idx as usize] as usize;
                    let end = adj.offsets[idx as usize + 1] as usize;
                    proof {
                        lemma_offsets_mono(*adj, num_clusters as int, idx as int + 1,
                            num_clusters as int);
                    }
                    let mut p: usize = start;
                    while p < end
                        invariant
                            adj_wf(*adj, num_clusters as int),
                            visited@.len() == num_clusters,
                            in_level@.len() == num_clusters,
                            (idx as int) < num_clusters as int,
                            start == adj.offsets@[idx as int],
                            end == adj.offsets@[idx as int + 1],
                            end <= adj.neighbors@.len(),
                            start <= p <= end,
                            1 <= head <= queue@.len(),
                            cur@.len() >= 1,
                            cur@.last() == idx,
                            forall|v: int|
                                0 <= v < num_clusters ==> ((#[trigger] in_level@[v])
                                    <==> cluster_indices@.contains(v as u32)),
                            forall|j: int|
                                0 <= j < queue@.len() ==> ((#[trigger] queue@[j] as int)
                                    < num_clusters as int && cluster_indices@.contains(queue@[j])),
                            forall|j: int|
                                head <= j < queue@.len() ==> exists|k2: int|
                                    0 <= k2 < cur@.len() && in_nbrs(
                                        *adj,
                                        cur@[k2],
                                        #[trigger] queue@[j],
                                    ),
                            members_neighbors_pending(cur@.drop_last(), *adj, cluster_indices@,
                                visited@, queue@, head as int),
                            forall|j2: int|
                                start <= j2 < p && cluster_indices@.contains(
                                    #[trigger] adj.neighbors@[j2],
                                ) ==> neighbor_pending(visited@, queue@, head as int,
                                adj.neighbors@[j2]),
                        decreases end - p,
                    {
                        let n = adj.neighbors[p];
                        let ghost queue_pre = queue@;
                        if !visited[n as usize] && in_level[n as usize] {
                            queue.push(n);
                            proof {
                                assert(in_nbrs(*adj, idx, n)) by {
                                    assert(adj.neighbors@[p as int] == n);
                                }
                                assert(cur@[cur@.len() - 1] == idx);
                                assert forall|k: int, j: int|
                                    #![trigger cur@.drop_last()[k], adj.neighbors@[j]]
                                    0 <= k < cur@.drop_last().len() && adj.offsets@[cur@.drop_last()[k] as int]
                                        <= j < adj.offsets@[cur@.drop_last()[k] as int + 1]
                                        && cluster_indices@.contains(adj.neighbors@[j]) implies
                                    neighbor_pending(visited@, queue@, head as int,
                                    adj.neighbors@[j]) by {
                                    lemma_pending_push(visited@, queue_pre, head as int, n,
                                        adj.neighbors@[j]);
                                }
                                assert forall|j2: int|
                                    start <= j2 < p + 1 && cluster_indices@.contains(
                                        #[trigger] adj.neighbors@[j2],
                                    ) implies neighbor_pending(visited@, queue@, head as int,
                                    adj.neighbors@[j2]) by {
                                    if j2 < p {
                                        lemma_pending_push(visited@, queue_pre, head as int, n,
                                            adj.neighbors@[j2]);
                                    } else {
                                        assert(queue@[queue@.len() - 1] == n);
                                    }
                                }
                            }
                        } else {
                            proof {
                                assert forall|j2: int|
                                    start <= j2 < p + 1 && cluster_indices@.contains(
                                        #[trigger] adj.neighbors@[j2],
                                    ) implies neighbor_pending(visited@, queue@, head as int,
                                    adj.neighbors@[j2]) by {
                                    if j2 == p {
                                        assert(adj.neighbors@[p as int] == n);
                                        assert(visited@[n as int]);
                                    }
                                }
                            }
                        }
                        p = p + 1;
                    }
                    proof {
                        assert(members_neighbors_pending(cur@, *adj, cluster_indices@, visited@,
                            queue@, head as int)) by {
                            assert forall|k: int, j: int|
                                #![trigger cur@[k], adj.neighbors@[j]]
                                0 <= k < cur@.len() && adj.offsets@[cur@[k] as int] <= j
                                    < adj.offsets@[cur@[k] as int + 1] && cluster_indices@.contains(
                                    adj.neighbors@[j],
                                ) implies neighbor_pending(visited@, queue@, head as int,
                                adj.neighbors@[j]) by {
                                if k < cur@.len() - 1 {
                                    assert(cur@.drop_last()[k] == cur@[k]);
                                } else {
                                    assert(cur@[k] == idx);
                                }
                            }
                        }
                    }
                } else {
                    proof {
                        assert forall|k: int, j: int|
                            #![trigger cur@[k], adj.neighbors@[j]]
                            0 <= k < cur@.len() && adj.offsets@[cur@[k] as int] <= j
                                < adj.offsets@[cur@[k] as int + 1] && cluster_indices@.contains(
                                adj.neighbors@[j],
                            ) implies neighbor_pending(visited@, queue@, head as int,
                            adj.neighbors@[j]) by {
                            assert(cur@[k] == cur_before[k]);
                            assert(neighbor_pending(visited_before, queue_before, head_before,
                                adj.neighbors@[j]));
                            let n = adj.neighbors@[j];
                            if !visited_before[n as int] {
                                let q = choose|q: int|
                                    head_before <= q < queue_before.len() && #[trigger]
                                    queue_before[q] == n;
                                if q == head_before {
                                    assert(n == idx);
                                } else {
                                    assert(queue@[q] == n && head as int <= q);
                                }
                            }
                        }
                    }
                }
            }
            proof {
                assert(head > 0);
            }
            let ghost old_groups = groups@;
            let ghost cur_view = cur@;
            groups.push(ClusterGroup { cluster_indices: cur });
            proof {
                assert(groups@ == old_groups.push(ClusterGroup { cluster_indices: cur }));
                assert(groups@[groups@.len() - 1].cluster_indices@ == cur_view);
                assert(group_connected(*adj, groups@[groups@.len() - 1]));
                assert forall|g: int| 0 <= g < groups@.len() implies group_connected(
                    *adj,
                    #[trigger] groups@[g],
                ) by {
                    if g < old_groups.len() {
                        assert(groups@[g] == old_groups[g]);
                    }
                }
                assert forall|v: int| 0 <= v < num_clusters implies ((#[trigger] visited@[v])
                    <==> appears(groups@, Seq::empty(), v as u32)) by {
                    assert(visited@[v] <==> appears(old_groups, cur_view, v as u32));
                    if appears(old_groups, cur_view, v as u32) {
                        if cur_view.contains(v as u32) {
                            assert((groups@[groups@.len() - 1].cluster_indices@).contains(
                                v as u32,
                            ));
                        } else {
                            let g = choose|g: int|
                                0 <= g < old_groups.len() && (
                                #[trigger] old_groups[g].cluster_indices@).contains(v as u32);
                            assert((groups@[g].cluster_indices@).contains(v as u32));
                        }
                    }
                    if appears(groups@, Seq::empty(), v as u32) {
                        let g = choose|g: int|
                            0 <= g < groups@.len() && (
                            #[trigger] groups@[g].cluster_indices@).contains(v as u32);
                        if g < old_groups.len() {
                            assert((old_groups[g].cluster_indices@).contains(v as u32));
                        } else {
                            assert(cur_view.contains(v as u32));
                        }
                    }
                }
                assert(small_groups_maximal(groups@, *adj, cluster_indices@,
                    target_group_size as int)) by {
                    assert forall|g: int, k: int, j: int|
                        #![trigger groups@[g].cluster_indices@[k], adj.neighbors@[j]]
                        0 <= g < groups@.len() && groups@[g].cluster_indices@.len()
                            < target_group_size && 0 <= k < groups@[g].cluster_indices@.len()
                            && adj.offsets@[groups@[g].cluster_indices@[k] as int] <= j
                            < adj.offsets@[groups@[g].cluster_indices@[k] as int + 1]
                            && cluster_indices@.contains(adj.neighbors@[j]) implies in_prefix_groups(
                        groups@,
                        g,
                        adj.neighbors@[j],
                    ) by {
                        if g < old_groups.len() {
                            assert(groups@[g] == old_groups[g]);
                            assert(in_prefix_groups(old_groups, g, adj.neighbors@[j]));
                            let g2 = choose|g2: int|
                                0 <= g2 <= g && (
                                #[trigger] old_groups[g2].cluster_indices@).contains(
                                    adj.neighbors@[j],
                                );
                            assert(groups@[g2] == old_groups[g2]);
                            assert((groups@[g2].cluster_indices@).contains(adj.neighbors@[j]));
                        } else {
                            // the group just collected drained its queue
                            // below the budget, so everything adjacent is
                            // already visited
                            assert(groups@[g].cluster_indices@ == cur_view);
                            assert(head >= queue@.len());
                            let m = cur_view[k];
                            let n = adj.neighbors@[j];
                            assert(j < adj.neighbors@.len()) by {
                                lemma_offsets_mono(*adj, num_clusters as int, m as int + 1,
                                    num_clusters as int);
                            }
                            assert((n as int) < num_clusters as int);
                            assert(neighbor_pending(visited@, queue@, head as int, n));
                            assert(visited@[n as int]);
                            assert(appears(old_groups, cur_view, n));
                            if cur_view.contains(n) {
                                assert((groups@[g].cluster_indices@).contains(n));
                            } else {
                                let g2 = choose|g2: int|
                                    0 <= g2 < old_groups.len() && (
                                    #[trigger] old_groups[g2].cluster_indices@).contains(n);
                                assert(groups@[g2] == old_groups[g2]);
                                assert((groups@[g2].cluster_indices@).contains(n));
                            }
                        }
                    }
                }
            }
        }
        t = t + 1;
    }
    proof {
        assert forall|t2: int| 0 <= t2 < cluster_indices@.len() implies appears(
            groups@,
            Seq::empty(),
            #[trigger] cluster_indices@[t2],
        ) by {
            assert(visited@[cluster_indices@[t2] as int]);
        }
    }
    groups
}

proof fn lemma_offsets_mono(adj: Adjacency, num_clusters: int, a: int, b: int)
    requires
        adj_wf(adj, num_clusters),
        0 <= a <= b <= num_clusters,
    ensures
        adj.offsets@[a] <= adj.offsets@[b],
    decreases b - a,
{
    if a < b {
        lemma_offsets_mono(adj, num_clusters, a, b - 1);
    }
}

} // verus!
