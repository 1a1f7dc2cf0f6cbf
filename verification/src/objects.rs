//! The geodesic sphere: a subdivided icosahedron.
//!
//! `Sphere::new` builds the canonical icosahedron, refines it the
//! requested number of times — every triangle splits into four, with
//! one shared, renormalized midpoint vertex per unordered edge — and
//! derives a smooth per-vertex normal field.  The contracts pin down
//! the vertex-count law of each pass (old count plus one vertex per
//! distinct edge), the quadrupling of the triangle list, the winding
//! pattern of the refined triangles, and the exact coordinates of
//! every vertex and normal.

use vstd::prelude::*;
use std::collections::HashMap;
use crate::fixed::{abs_int, div_trunc, ONE};
use crate::math::{
    identity_spec, len_sq_spec, normalized_spec, vec_bounded, Mat4x4, Vec3,
};
use crate::traits::{Meshed, Shaded, Transform, Visible};

verus! {

broadcast use vstd::std_specs::hash::group_hash_axioms;

/// Largest coordinate magnitude a mesh vertex can have: 2.0.  The
/// canonical icosahedron lies on the unit sphere and renormalized
/// midpoints stay within twice unit length, so subdivision preserves
/// this bound.
pub const VTX_LIMIT: i64 = 131072;

/// Largest flat length accepted for the vertex and index buffers of
/// one subdivision pass: 2^26.
pub const MESH_LIMIT: usize = 67108864;

/// Saturation bound of the normal accumulator: 2^31 - 2^24.
pub const SAT_LIMIT: i64 = 2130706432;

/// The fourth powers: how the triangle count grows with subdivision.
pub open spec fn pow4(n: nat) -> nat
    decreases n,
{
    if n == 0 {
        1
    } else {
        4 * pow4((n - 1) as nat)
    }
}

/// The unordered-edge key of a pair of vertex indices: both directed
/// forms of an edge map to the same pair.
pub open spec fn uedge(a: u32, b: u32) -> (u32, u32) {
    if a <= b {
        (a, b)
    } else {
        (b, a)
    }
}

/// The set of unordered edges of the first `k` triangles of a flat
/// index list.
pub open spec fn edge_set_upto(ind: Seq<u32>, k: nat) -> Set<(u32, u32)>
    decreases k,
{
    if k == 0 {
        Set::empty()
    } else {
        let t = (k - 1) as int;
        edge_set_upto(ind, (k - 1) as nat).insert(uedge(ind[3 * t], ind[3 * t + 1])).insert(
            uedge(ind[3 * t + 1], ind[3 * t + 2]),
        ).insert(uedge(ind[3 * t], ind[3 * t + 2]))
    }
}

/// The set of unordered edges of a triangulation.
pub open spec fn edge_set(ind: Seq<u32>) -> Set<(u32, u32)> {
    edge_set_upto(ind, (ind.len() / 3) as nat)
}

/// The number of distinct unordered edges of a triangulation.
pub open spec fn edge_count(ind: Seq<u32>) -> nat {
    edge_set(ind).len()
}

/// The directed-edge key used by the midpoint cache: the pair packed
/// into a `u64`.
pub open spec fn ekey(a: u32, b: u32) -> u64 {
    ((a as int) * 4294967296 + (b as int)) as u64
}

/// The first vertex index of a directed-edge key.
pub open spec fn khi(k: u64) -> u32 {
    (k / 4294967296) as u32
}

/// The second vertex index of a directed-edge key.
pub open spec fn klo(k: u64) -> u32 {
    (k % 4294967296) as u32
}

/// The vertex of index `i` in a flat coordinate buffer.
pub open spec fn vertex_at(vs: Seq<i64>, i: int) -> Vec3 {
    Vec3 { x: vs[3 * i], y: vs[3 * i + 1], z: vs[3 * i + 2] }
}

/// The truncated mean of two scalars.
pub open spec fn avg2(a: int, b: int) -> int {
    div_trunc(a + b, 2)
}

/// The raw midpoint of the edge `(a, b)` of the vertex buffer `vs0`:
/// the componentwise truncated mean of the two endpoints.
pub open spec fn mid_raw_spec(vs0: Seq<i64>, a: int, b: int) -> Vec3 {
    Vec3 {
        x: avg2(vs0[3 * a] as int, vs0[3 * b] as int) as i64,
        y: avg2(vs0[3 * a + 1] as int, vs0[3 * b + 1] as int) as i64,
        z: avg2(vs0[3 * a + 2] as int, vs0[3 * b + 2] as int) as i64,
    }
}

/// The midpoint of the edge `(a, b)` of the vertex buffer `vs0`,
/// projected back onto the sphere: the raw midpoint renormalized to
/// unit length unless its length is zero.
pub open spec fn mid_norm_spec(vs0: Seq<i64>, a: int, b: int) -> Vec3 {
    let mid = mid_raw_spec(vs0, a, b);
    if len_sq_spec(mid) > 0 {
        normalized_spec(mid)
    } else {
        mid
    }
}

/// Some cache key holds the vertex index `p`.
pub open spec fn covered(m: Map<u64, u32>, p: int) -> bool {
    exists|k: u64| #[trigger] m.contains_key(k) && m[k] == p
}

/// One midpoint lookup of the subdivision pass, exactly as the
/// executable code performs it: reuse the cached index if either
/// directed form of the edge is present, else append the renormalized
/// midpoint as a fresh vertex and cache it under the queried
/// orientation.  The result triple is the grown vertex buffer, the
/// grown cache, and the midpoint's index.
pub open spec fn mid_step(vs: Seq<i64>, m: Map<u64, u32>, vs0: Seq<i64>, a: u32, b: u32) -> (
    Seq<i64>,
    Map<u64, u32>,
    u32,
) {
    if m.contains_key(ekey(a, b)) {
        (vs, m, m[ekey(a, b)])
    } else if m.contains_key(ekey(b, a)) {
        (vs, m, m[ekey(b, a)])
    } else {
        let idx = (vs.len() / 3) as u32;
        let w = mid_norm_spec(vs0, a as int, b as int);
        (vs.push(w.x).push(w.y).push(w.z), m.insert(ekey(a, b), idx), idx)
    }
}

/// One triangle of the subdivision pass: the three midpoint lookups in
/// edge order `(f, s)`, `(s, w)`, `(f, w)`, then the four replacement
/// triangles appended to the output list.
pub open spec fn tri_step(
    vs: Seq<i64>,
    m: Map<u64, u32>,
    out: Seq<u32>,
    vs0: Seq<i64>,
    f: u32,
    s: u32,
    w: u32,
) -> (Seq<i64>, Map<u64, u32>, Seq<u32>) {
    let r1 = mid_step(vs, m, vs0, f, s);
    let r2 = mid_step(r1.0, r1.1, vs0, s, w);
    let r3 = mid_step(r2.0, r2.1, vs0, f, w);
    let fs = r1.2;
    let st = r2.2;
    let ft = r3.2;
    (r3.0, r3.1, out + seq![f, fs, ft, fs, s, st, ft, st, w, fs, st, ft])
}

/// The subdivision pass folded over the first `k` triangles, starting
/// from the input buffer, an empty cache and an empty output list.
pub open spec fn subdiv_upto(vs0: Seq<i64>, ind: Seq<u32>, k: nat) -> (
    Seq<i64>,
    Map<u64, u32>,
    Seq<u32>,
)
    decreases k,
{
    if k == 0 {
        (vs0, Map::empty(), Seq::empty())
    } else {
        let p = subdiv_upto(vs0, ind, (k - 1) as nat);
        let t = (k - 1) as int;
        tri_step(p.0, p.1, p.2, vs0, ind[3 * t], ind[3 * t + 1], ind[3 * t + 2])
    }
}

/// The exact result of one whole subdivision pass: the final vertex
/// buffer and the refined index list are a pure function of the input
/// mesh, so subdivision is deterministic.
pub open spec fn subdivide_spec(vs0: Seq<i64>, ind: Seq<u32>) -> (Seq<i64>, Seq<u32>) {
    let r = subdiv_upto(vs0, ind, (ind.len() / 3) as nat);
    (r.0, r.2)
}

/// The exact mesh of each subdivision level: the canonical icosahedron
/// refined level by level.  [`Sphere::new`] returns exactly this mesh,
/// so two spheres of the same level are identical.
pub open spec fn mesh_level_spec(n: nat) -> (Seq<i64>, Seq<u32>)
    decreases n,
{
    if n == 0 {
        (icosahedron_spec(), icosahedron_faces_spec())
    } else {
        let p = mesh_level_spec((n - 1) as nat);
        subdivide_spec(p.0, p.1)
    }
}

/// The midpoint cache invariant.  `vs0` is the vertex buffer the pass
/// started from, `vs` the current one, `es` the set of unordered edges
/// handled so far.  One vertex was appended per element of `es`; each
/// cache key is a directed form of a handled edge and holds the index
/// of that edge's renormalized midpoint; every handled edge is in the
/// cache under at least one of its two directed forms; and every
/// appended vertex is held by some key.
#[verifier::opaque]
pub open spec fn cache_ok(m: Map<u64, u32>, es: Set<(u32, u32)>, vs0: Seq<i64>, vs: Seq<i64>) -> bool {
    let base = vs0.len() as int / 3;
    let vcount = vs.len() as int / 3;
    &&& es.finite()
    &&& vs.len() == vs0.len() + 3 * es.len()
    &&& forall|k: u64| #[trigger] m.contains_key(k) ==> {
        &&& es.contains(uedge(khi(k), klo(k)))
        &&& (khi(k) as int) < base && (klo(k) as int) < base
        &&& base <= m[k] < vcount
        &&& vertex_at(vs, m[k] as int) == mid_norm_spec(vs0, khi(k) as int, klo(k) as int)
    }
    &&& forall|a: u32, b: u32|
        es.contains(#[trigger] uedge(a, b)) ==> m.contains_key(ekey(a, b)) || m.contains_key(
            ekey(b, a),
        )
    &&& forall|p: int| base <= p < vcount ==> covered(m, p)
}

/// All entries of a flat coordinate buffer are bounded by `m`.
pub open spec fn coords_bounded(vs: Seq<i64>, m: int) -> bool {
    forall|j: int| 0 <= j < vs.len() ==> abs_int(#[trigger] vs[j] as int) <= m
}

/// All entries of a flat index list address vertices of the buffer
/// length `vlen`.
pub open spec fn indices_valid(ind: Seq<u32>, vlen: int) -> bool {
    forall|j: int| 0 <= j < ind.len() ==> 3 * (#[trigger] ind[j] as int) + 2 < vlen
}

/// The twelve indices starting at `base` of a refined index list
/// replace the triangle `(f, s, w)` by four triangles over the
/// midpoint indices `fs`, `ft` and `st` of its three edges, in the
/// order `(f, fs, ft), (fs, s, st), (ft, st, w), (fs, st, ft)` — the
/// ordering that preserves outward winding.  The midpoint indices
/// address vertices appended by the pass, and those vertices hold
/// exactly the renormalized midpoints of the triangle's edges.
pub open spec fn refined_at(
    out: Seq<u32>,
    base: int,
    f: u32,
    s: u32,
    w: u32,
    vs0: Seq<i64>,
    vs: Seq<i64>,
) -> bool {
    let fs = out[base + 1];
    let ft = out[base + 2];
    let st = out[base + 5];
    &&& out[base] == f
    &&& out[base + 3] == fs
    &&& out[base + 4] == s
    &&& out[base + 6] == ft
    &&& out[base + 7] == st
    &&& out[base + 8] == w
    &&& out[base + 9] == fs
    &&& out[base + 10] == st
    &&& out[base + 11] == ft
    &&& vs0.len() <= 3 * (fs as int) && 3 * (fs as int) + 2 < vs.len()
    &&& vs0.len() <= 3 * (st as int) && 3 * (st as int) + 2 < vs.len()
    &&& vs0.len() <= 3 * (ft as int) && 3 * (ft as int) + 2 < vs.len()
    &&& vertex_at(vs, fs as int) == mid_norm_spec(vs0, f as int, s as int)
    &&& vertex_at(vs, st as int) == mid_norm_spec(vs0, s as int, w as int)
    &&& vertex_at(vs, ft as int) == mid_norm_spec(vs0, f as int, w as int)
}

/// Triangle `t` of `ind` has been refined into the four triangles at
/// position `12 * t` of `out`.
pub open spec fn triangle_refined(ind: Seq<u32>, out: Seq<u32>, vs0: Seq<i64>, vs: Seq<i64>, t: int) -> bool {
    refined_at(out, 12 * t, ind[3 * t], ind[3 * t + 1], ind[3 * t + 2], vs0, vs)
}

/// Vertex `p` of the refined buffer is the renormalized midpoint of
/// some unordered edge of the triangulation.
pub open spec fn is_edge_midpoint(ind: Seq<u32>, vs0: Seq<i64>, vs: Seq<i64>, p: int) -> bool {
    exists|x: u32, y: u32|
        edge_set(ind).contains(#[trigger] uedge(x, y)) && vertex_at(vs, p) == mid_norm_spec(
            vs0,
            x as int,
            y as int,
        )
}

/// One whole subdivision step between two meshes: the triangle list
/// quadruples, the vertex buffer grows by exactly one vertex per
/// distinct unordered edge, the old vertices stay in place, and every
/// old triangle is refined into its four replacement triangles.
pub open spec fn mesh_refines(vs0: Seq<i64>, ind0: Seq<u32>, vs1: Seq<i64>, ind1: Seq<u32>) -> bool {
    &&& ind1.len() == 4 * ind0.len()
    &&& vs1.len() == vs0.len() + 3 * edge_count(ind0)
    &&& vs0.len() <= vs1.len()
    &&& vs1.subrange(0, vs0.len() as int) == vs0
    &&& forall|t: int| 0 <= t < ind0.len() / 3 ==> triangle_refined(ind0, ind1, vs0, vs1, t)
}

/// Every consecutive pair of meshes in the chain is one subdivision
/// step apart.
pub open spec fn refinement_chain(chain: Seq<(Seq<i64>, Seq<u32>)>) -> bool {
    forall|i: int|
        0 <= i < chain.len() - 1 ==> mesh_refines(
            (#[trigger] chain[i]).0,
            chain[i].1,
            chain[i + 1].0,
            chain[i + 1].1,
        )
}

/// Splitting a directed-edge key returns its two vertex indices.
proof fn lemma_ekey_split(a: u32, b: u32)
    ensures
        khi(ekey(a, b)) == a,
        klo(ekey(a, b)) == b,
{
    vstd::arithmetic::div_mod::lemma_fundamental_div_mod_converse(
        ekey(a, b) as int,
        4294967296,
        a as int,
        b as int,
    );
}

/// An edge set holds at most three edges per triangle.
proof fn lemma_edge_set_size(ind: Seq<u32>, k: nat)
    requires
        3 * k <= ind.len(),
    ensures
        edge_set_upto(ind, k).finite(),
        edge_set_upto(ind, k).len() <= 3 * k,
    decreases k,
{
    if k > 0 {
        lemma_edge_set_size(ind, (k - 1) as nat);
    }
}

/// A renderable mesh entity: a geodesic sphere with its model matrix,
/// visibility flag and shader program handle.
pub struct Sphere {
    pub vertices: Vec<i64>,
    pub indices: Vec<u32>,
    pub normals: Vec<i64>,
    pub matrix: Mat4x4,
    pub visible: bool,
    pub program: u32,
}

impl Sphere {
    /// The mesh invariant: flat buffers of whole vertices and
    /// triangles, a normal per vertex, every index addressing an
    /// existing vertex, and bounded coordinates.
    pub open spec fn wf(self) -> bool {
        &&& self.vertices@.len() % 3 == 0
        &&& self.indices@.len() % 3 == 0
        &&& self.normals@.len() == self.vertices@.len()
        &&& indices_valid(self.indices@, self.vertices@.len() as int)
        &&& coords_bounded(self.vertices@, VTX_LIMIT as int)
    }
}

/// The twelve vertices of the canonical icosahedron in fixed point:
/// the poles at z of one and minus one, and two pentagonal rings at
/// z of plus and minus `1/sqrt(5)`, radius `2/sqrt(5)`, the upper ring
/// phase-shifted by half the angular step.
pub open spec fn icosahedron_spec() -> Seq<i64> {
    seq![
        0i64, 0i64, 65536i64, -34454i64, -47422i64, 29309i64,
        34454i64, -47422i64, 29309i64, 55748i64, 18114i64, 29309i64,
        0i64, 58617i64, 29309i64, -55748i64, 18114i64, 29309i64,
        0i64, -58617i64, -29309i64, 55748i64, -18114i64, -29309i64,
        34454i64, 47422i64, -29309i64, -34454i64, 47422i64, -29309i64,
        -55748i64, -18114i64, -29309i64, 0i64, 0i64, -65536i64,
    ]
}

/// The twenty faces of the canonical icosahedron: the fixed adjacency
/// table whose winding makes every face normal point outward.
pub open spec fn icosahedron_faces_spec() -> Seq<u32> {
    seq![
        0u32, 1u32, 2u32, 0u32, 2u32, 3u32, 0u32, 3u32, 4u32, 0u32, 4u32, 5u32,
        0u32, 5u32, 1u32, 1u32, 6u32, 2u32, 2u32, 6u32, 7u32, 2u32, 7u32, 3u32,
        3u32, 7u32, 8u32, 3u32, 8u32, 4u32, 4u32, 8u32, 9u32, 4u32, 9u32, 5u32,
        5u32, 9u32, 10u32, 5u32, 10u32, 1u32, 1u32, 10u32, 6u32, 11u32, 7u32, 6u32,
        11u32, 8u32, 7u32, 11u32, 9u32, 8u32, 11u32, 10u32, 9u32, 11u32, 6u32, 10u32,
    ]
}

/// Packs a directed edge into its cache key.
fn ekey_exec(a: u32, b: u32) -> (r: u64)
    ensures
        r == ekey(a, b),
{
    (a as u64) * 4294967296u64 + (b as u64)
}

/// The truncated mean of two bounded scalars.
fn avg2_exec(a: i64, b: i64) -> (r: i64)
    requires
        abs_int(a as int) <= VTX_LIMIT as int,
        abs_int(b as int) <= VTX_LIMIT as int,
    ensures
        r as int == avg2(a as int, b as int),
        abs_int(r as int) <= VTX_LIMIT as int,
{
    let s: i64 = a + b;
    if s >= 0 {
        ((s as u64) / 2) as i64
    } else {
        -((((-(s as i128)) as u64) / 2) as i64)
    }
}

/// Returns the index of the midpoint vertex of the edge `(a, b)`,
/// reusing the cached vertex if either directed form of the edge was
/// handled before and appending a fresh renormalized midpoint
/// otherwise.
fn midpoint_index(
    vertices: &mut Vec<i64>,
    middles: &mut HashMap<u64, u32>,
    a: u32,
    b: u32,
    Ghost(vs0): Ghost<Seq<i64>>,
    Ghost(es): Ghost<Set<(u32, u32)>>,
) -> (r: u32)
    requires
        vs0.len() % 3 == 0,
        old(vertices)@.len() % 3 == 0,
        old(vertices)@.len() <= 268435456,
        vs0.len() <= old(vertices)@.len(),
        old(vertices)@.subrange(0, vs0.len() as int) == vs0,
        coords_bounded(old(vertices)@, VTX_LIMIT as int),
        3 * (a as int) + 2 < vs0.len(),
        3 * (b as int) + 2 < vs0.len(),
        cache_ok(old(middles)@, es, vs0, old(vertices)@),
    ensures
        cache_ok(final(middles)@, es.insert(uedge(a, b)), vs0, final(vertices)@),
        final(vertices)@.len() == old(vertices)@.len() + if es.contains(uedge(a, b)) {
            0int
        } else {
            3int
        },
        final(vertices)@.subrange(0, old(vertices)@.len() as int) == old(vertices)@,
        coords_bounded(final(vertices)@, VTX_LIMIT as int),
        vs0.len() <= 3 * (r as int),
        3 * (r as int) + 2 < final(vertices)@.len(),
        vertex_at(final(vertices)@, r as int) == mid_norm_spec(vs0, a as int, b as int),
        final(vertices)@.len() == vs0.len() + 3 * es.insert(uedge(a, b)).len(),
        final(vertices)@ == mid_step(old(vertices)@, old(middles)@, vs0, a, b).0,
        final(middles)@ == mid_step(old(vertices)@, old(middles)@, vs0, a, b).1,
        r == mid_step(old(vertices)@, old(middles)@, vs0, a, b).2,
{
    proof {
        reveal(cache_ok);
        lemma_ekey_split(a, b);
        lemma_ekey_split(b, a);
    }
    let key_ab: u64 = ekey_exec(a, b);
    let key_ba: u64 = ekey_exec(b, a);
    let hit: Option<u32> = match middles.get(&key_ab) {
        Option::Some(m) => Option::Some(*m),
        Option::None => match middles.get(&key_ba) {
            Option::Some(m) => Option::Some(*m),
            Option::None => Option::None,
        },
    };
    match hit {
        Option::Some(m) => {
            proof {
                assert(es.contains(uedge(a, b)));
                assert(es.insert(uedge(a, b)) =~= es);
            }
            m
        },
        Option::None => {
            proof {
                if es.contains(uedge(a, b)) {
                    assert(middles@.contains_key(ekey(a, b)) || middles@.contains_key(
                        ekey(b, a),
                    ));
                    assert(false);
                }
            }
            let ghost vs_before = vertices@;
            let ghost m_before = middles@;
            let ax: i64 = vertices[a as usize * 3];
            let ay: i64 = vertices[a as usize * 3 + 1];
            let az: i64 = vertices[a as usize * 3 + 2];
            let bx: i64 = vertices[b as usize * 3];
            let by: i64 = vertices[b as usize * 3 + 1];
            let bz: i64 = vertices[b as usize * 3 + 2];
            proof {
                assert(vs_before[3 * (a as int)] == vs0[3 * (a as int)]);
                assert(vs_before[3 * (a as int) + 1] == vs0[3 * (a as int) + 1]);
                assert(vs_before[3 * (a as int) + 2] == vs0[3 * (a as int) + 2]);
                assert(vs_before[3 * (b as int)] == vs0[3 * (b as int)]);
                assert(vs_before[3 * (b as int) + 1] == vs0[3 * (b as int) + 1]);
                assert(vs_before[3 * (b as int) + 2] == vs0[3 * (b as int) + 2]);
            }
            let mid: Vec3 = Vec3 {
                x: avg2_exec(ax, bx),
                y: avg2_exec(ay, by),
                z: avg2_exec(az, bz),
            };
            let newidx: u32 = (vertices.len() / 3) as u32;
            let lsq: i64 = mid.len_squared();
            let w: Vec3 = if lsq > 0 {
                mid.normalized()
            } else {
                mid
            };
            proof {
                assert(w == mid_norm_spec(vs0, a as int, b as int));
                assert(vec_bounded(w, VTX_LIMIT as int));
            }
            vertices.push(w.x);
            vertices.push(w.y);
            vertices.push(w.z);
            middles.insert(key_ab, newidx);
            proof {
                let vsn = vertices@;
                let mn = middles@;
                let es2 = es.insert(uedge(a, b));
                let base = vs0.len() as int / 3;
                let vcb = vs_before.len() as int / 3;
                let vcn = vsn.len() as int / 3;
                assert(mn == m_before.insert(ekey(a, b), newidx));
                assert(es2.len() == es.len() + 1);
                assert(vsn.len() == vs_before.len() + 3);
                assert(vcn == vcb + 1);
                assert(vertex_at(vsn, newidx as int) == w);
                assert(vsn.subrange(0, vs_before.len() as int) =~= vs_before);
                assert(vsn.subrange(0, vs0.len() as int) =~= vs0);
                assert forall|j: int| 0 <= j < vsn.len() implies abs_int(
                    #[trigger] vsn[j] as int,
                ) <= VTX_LIMIT as int by {
                    if j < vs_before.len() {
                        assert(vsn[j] == vs_before[j]);
                    }
                }
                assert forall|k: u64| #[trigger] mn.contains_key(k) implies {
                    &&& es2.contains(uedge(khi(k), klo(k)))
                    &&& (khi(k) as int) < base && (klo(k) as int) < base
                    &&& base <= mn[k] < vcn
                    &&& vertex_at(vsn, mn[k] as int) == mid_norm_spec(
                        vs0,
                        khi(k) as int,
                        klo(k) as int,
                    )
                } by {
                    if k == ekey(a, b) {
                        assert(mn[k] == newidx);
                    } else {
                        assert(m_before.contains_key(k));
                        assert(vertex_at(vs_before, m_before[k] as int) == mid_norm_spec(
                            vs0,
                            khi(k) as int,
                            klo(k) as int,
                        ));
                        assert(3 * (m_before[k] as int) + 2 < vs_before.len());
                        assert(vsn[3 * (m_before[k] as int)] == vs_before[3 * (
                        m_before[k] as int)]);
                        assert(vsn[3 * (m_before[k] as int) + 1] == vs_before[3 * (
                        m_before[k] as int) + 1]);
                        assert(vsn[3 * (m_before[k] as int) + 2] == vs_before[3 * (
                        m_before[k] as int) + 2]);
                    }
                }
                assert forall|x: u32, y: u32| es2.contains(#[trigger] uedge(x, y)) implies
                    mn.contains_key(ekey(x, y)) || mn.contains_key(ekey(y, x)) by {
                    if es.contains(uedge(x, y)) {
                        assert(m_before.contains_key(ekey(x, y)) || m_before.contains_key(
                            ekey(y, x),
                        ));
                    } else {
                        assert(uedge(x, y) == uedge(a, b));
                        if x == a && y == b {
                            assert(mn.contains_key(ekey(x, y)));
                        } else {
                            assert(x == b && y == a);
                            assert(mn.contains_key(ekey(y, x)));
                        }
                    }
                }
                assert forall|p: int| base <= p < vcn implies covered(mn, p) by {
                    if p < vcb {
                        assert(covered(m_before, p));
                        let k0 = choose|k0: u64|
                            #[trigger] m_before.contains_key(k0) && m_before[k0] == p;
                        assert(mn.contains_key(k0) && mn[k0] == p);
                    } else {
                        assert(mn.contains_key(ekey(a, b)) && mn[ekey(a, b)] == p);
                    }
                }
                assert(vsn =~= vs_before.push(w.x).push(w.y).push(w.z));
                assert(newidx == (vs_before.len() / 3) as u32);
                assert(mid_step(vs_before, m_before, vs0, a, b).0 == vsn);
                assert(mid_step(vs_before, m_before, vs0, a, b).1 == mn);
                assert(mid_step(vs_before, m_before, vs0, a, b).2 == newidx);
            }
            newidx
        },
    }
}

/// The truncated mean of three scalars.
pub open spec fn avg3(a: int, b: int, c: int) -> int {
    div_trunc(a + b + c, 3)
}

/// Addition clamped into the accumulator range.
pub open spec fn sat_add_spec(a: int, b: int) -> int {
    let s = a + b;
    if s > SAT_LIMIT as int {
        SAT_LIMIT as int
    } else if s < -(SAT_LIMIT as int) {
        -(SAT_LIMIT as int)
    } else {
        s
    }
}

/// The centroid of triangle `t`: the componentwise truncated mean of
/// its three corner positions, the blended face direction each corner
/// receives.
pub open spec fn tri_centroid(vs: Seq<i64>, ind: Seq<u32>, t: int) -> Vec3 {
    let f = ind[3 * t] as int;
    let s = ind[3 * t + 1] as int;
    let w = ind[3 * t + 2] as int;
    Vec3 {
        x: avg3(vs[3 * f] as int, vs[3 * s] as int, vs[3 * w] as int) as i64,
        y: avg3(vs[3 * f + 1] as int, vs[3 * s + 1] as int, vs[3 * w + 1] as int) as i64,
        z: avg3(vs[3 * f + 2] as int, vs[3 * s + 2] as int, vs[3 * w + 2] as int) as i64,
    }
}

/// Adds the centroid `c` into the three accumulator slots of vertex
/// `v`, component by component in order, each addition clamped.
pub open spec fn acc_tri(acc: Seq<i64>, v: int, c: Vec3) -> Seq<i64> {
    let a0 = acc.update(3 * v, sat_add_spec(acc[3 * v] as int, c.x as int) as i64);
    let a1 = a0.update(3 * v + 1, sat_add_spec(a0[3 * v + 1] as int, c.y as int) as i64);
    a1.update(3 * v + 2, sat_add_spec(a1[3 * v + 2] as int, c.z as int) as i64)
}

/// The normal accumulator after the first `k` triangles: zero, plus
/// each triangle's centroid added into the slots of its three corners.
pub open spec fn accum_upto(vs: Seq<i64>, ind: Seq<u32>, k: nat) -> Seq<i64>
    decreases k,
{
    if k == 0 {
        Seq::new(vs.len(), |i: int| 0i64)
    } else {
        let t = (k - 1) as int;
        let prev = accum_upto(vs, ind, (k - 1) as nat);
        let c = tri_centroid(vs, ind, t);
        acc_tri(
            acc_tri(acc_tri(prev, ind[3 * t] as int, c), ind[3 * t + 1] as int, c),
            ind[3 * t + 2] as int,
            c,
        )
    }
}

/// A vector renormalized to unit length, or kept as it is when its
/// length is zero.
pub open spec fn norm_or_keep(v: Vec3) -> Vec3 {
    if len_sq_spec(v) > 0 {
        normalized_spec(v)
    } else {
        v
    }
}

/// The per-vertex normal field of a mesh: every triangle's centroid
/// accumulated into its three corners, then each vertex's accumulated
/// triple renormalized in place.
pub open spec fn normals_spec(vs: Seq<i64>, ind: Seq<u32>) -> Seq<i64> {
    let acc = accum_upto(vs, ind, (ind.len() / 3) as nat);
    Seq::new(
        vs.len(),
        |j: int|
            {
                let t = norm_or_keep(vertex_at(acc, j / 3));
                if j % 3 == 0 {
                    t.x
                } else if j % 3 == 1 {
                    t.y
                } else {
                    t.z
                }
            },
    )
}

/// The truncated mean of three bounded scalars.
fn avg3_exec(a: i64, b: i64, c: i64) -> (r: i64)
    requires
        abs_int(a as int) <= VTX_LIMIT as int,
        abs_int(b as int) <= VTX_LIMIT as int,
        abs_int(c as int) <= VTX_LIMIT as int,
    ensures
        r as int == avg3(a as int, b as int, c as int),
        abs_int(r as int) <= VTX_LIMIT as int,
{
    proof {
        crate::fixed::lemma_div_trunc_bound(
            a as int + b as int + c as int,
            3,
            3 * VTX_LIMIT as int,
        );
    }
    let s: i64 = a + b + c;
    if s >= 0 {
        ((s as u64) / 3) as i64
    } else {
        -((((-(s as i128)) as u64) / 3) as i64)
    }
}

/// Clamped addition of a centroid component into an accumulator slot.
fn sat_add_exec(a: i64, b: i64) -> (r: i64)
    requires
        abs_int(a as int) <= SAT_LIMIT as int,
        abs_int(b as int) <= VTX_LIMIT as int,
    ensures
        r as int == sat_add_spec(a as int, b as int),
        abs_int(r as int) <= SAT_LIMIT as int,
{
    let s: i64 = a + b;
    if s > SAT_LIMIT {
        SAT_LIMIT
    } else if s < -SAT_LIMIT {
        -SAT_LIMIT
    } else {
        s
    }
}

/// Refinement facts already established stay intact when the output
/// list and the vertex buffer grow.
proof fn lemma_refined_stable(
    ind: Seq<u32>,
    out_old: Seq<u32>,
    out_new: Seq<u32>,
    vs0: Seq<i64>,
    vs_old: Seq<i64>,
    vs_new: Seq<i64>,
    k: int,
)
    requires
        forall|t: int| 0 <= t < k ==> triangle_refined(ind, out_old, vs0, vs_old, t),
        out_old.len() <= out_new.len(),
        out_new.subrange(0, out_old.len() as int) == out_old,
        12 * k <= out_old.len(),
        vs_old.len() <= vs_new.len(),
        vs_new.subrange(0, vs_old.len() as int) == vs_old,
    ensures
        forall|t: int| 0 <= t < k ==> triangle_refined(ind, out_new, vs0, vs_new, t),
{
    assert forall|j: int| 0 <= j < out_old.len() implies out_new[j] == #[trigger] out_old[j] by {
        assert(out_new.subrange(0, out_old.len() as int)[j] == out_new[j]);
    }
    assert forall|j: int| 0 <= j < vs_old.len() implies vs_new[j] == #[trigger] vs_old[j] by {
        assert(vs_new.subrange(0, vs_old.len() as int)[j] == vs_new[j]);
    }
    assert forall|t: int| 0 <= t < k implies triangle_refined(ind, out_new, vs0, vs_new, t) by {
        assert(triangle_refined(ind, out_old, vs0, vs_old, t));
        let fs = out_old[12 * t + 1];
        let ft = out_old[12 * t + 2];
        let st = out_old[12 * t + 5];
        assert(vertex_at(vs_new, fs as int) == vertex_at(vs_old, fs as int));
        assert(vertex_at(vs_new, st as int) == vertex_at(vs_old, st as int));
        assert(vertex_at(vs_new, ft as int) == vertex_at(vs_old, ft as int));
    }
}

/// Refines one triangle `(f, s, w)`: appends the four replacement
/// triangles to `out`, creating or reusing the midpoint vertex of each
/// of the three edges through the cache.
#[verifier::rlimit(100)]
fn refine_triangle(
    vertices: &mut Vec<i64>,
    middles: &mut HashMap<u64, u32>,
    out: &mut Vec<u32>,
    f: u32,
    s: u32,
    w: u32,
    Ghost(vs0): Ghost<Seq<i64>>,
    Ghost(es0): Ghost<Set<(u32, u32)>>,
)
    requires
        vs0.len() % 3 == 0,
        old(vertices)@.len() % 3 == 0,
        old(vertices)@.len() + 9 <= 268435456,
        old(out)@.len() + 12 <= usize::MAX,
        vs0.len() <= old(vertices)@.len(),
        old(vertices)@.subrange(0, vs0.len() as int) == vs0,
        coords_bounded(old(vertices)@, VTX_LIMIT as int),
        3 * (f as int) + 2 < vs0.len(),
        3 * (s as int) + 2 < vs0.len(),
        3 * (w as int) + 2 < vs0.len(),
        cache_ok(old(middles)@, es0, vs0, old(vertices)@),
    ensures
        cache_ok(
            final(middles)@,
            es0.insert(uedge(f, s)).insert(uedge(s, w)).insert(uedge(f, w)),
            vs0,
            final(vertices)@,
        ),
        final(vertices)@.len() % 3 == 0,
        old(vertices)@.len() <= final(vertices)@.len() <= old(vertices)@.len() + 9,
        final(vertices)@.subrange(0, old(vertices)@.len() as int) == old(vertices)@,
        coords_bounded(final(vertices)@, VTX_LIMIT as int),
        final(out)@.len() == old(out)@.len() + 12,
        final(out)@.subrange(0, old(out)@.len() as int) == old(out)@,
        refined_at(final(out)@, old(out)@.len() as int, f, s, w, vs0, final(vertices)@),
        final(vertices)@.len() == vs0.len() + 3 * es0.insert(uedge(f, s)).insert(
            uedge(s, w),
        ).insert(uedge(f, w)).len(),
        final(vertices)@ == tri_step(old(vertices)@, old(middles)@, old(out)@, vs0, f, s, w).0,
        final(middles)@ == tri_step(old(vertices)@, old(middles)@, old(out)@, vs0, f, s, w).1,
        final(out)@ == tri_step(old(vertices)@, old(middles)@, old(out)@, vs0, f, s, w).2,
{
    proof {
        assert(vertices@.subrange(0, vs0.len() as int) == vs0);
    }
    let ghost vs_enter = vertices@;
    let ghost m_enter = middles@;
    let ghost out_enter = out@;
    let ghost es1 = es0.insert(uedge(f, s));
    let ghost es2 = es1.insert(uedge(s, w));
    let fs: u32 = midpoint_index(vertices, middles, f, s, Ghost(vs0), Ghost(es0));
    let ghost vs_a = vertices@;
    let ghost m_a = middles@;
    proof {
        assert forall|j: int| 0 <= j < vs0.len() implies vs_a[j] == #[trigger] vs0[j] by {
            assert(vs_a.subrange(0, vs_enter.len() as int)[j] == vs_a[j]);
            assert(vs_enter.subrange(0, vs0.len() as int)[j] == vs_enter[j]);
        }
        assert(vs_a.subrange(0, vs0.len() as int) =~= vs0);
    }
    let st: u32 = midpoint_index(vertices, middles, s, w, Ghost(vs0), Ghost(es1));
    let ghost vs_b = vertices@;
    let ghost m_b = middles@;
    proof {
        assert forall|j: int| 0 <= j < vs0.len() implies vs_b[j] == #[trigger] vs0[j] by {
            assert(vs_b.subrange(0, vs_a.len() as int)[j] == vs_b[j]);
            assert(vs_a.subrange(0, vs0.len() as int)[j] == vs_a[j]);
        }
        assert(vs_b.subrange(0, vs0.len() as int) =~= vs0);
    }
    let ft: u32 = midpoint_index(vertices, middles, f, w, Ghost(vs0), Ghost(es2));
    let ghost vs_c = vertices@;
    proof {
        assert(vs_c.subrange(0, vs_b.len() as int) == vs_b);
        assert(vs_b.subrange(0, vs_a.len() as int) == vs_a);
        assert forall|j: int| 0 <= j < vs_a.len() implies vs_c[j] == #[trigger] vs_a[j] by {
            assert(vs_b.subrange(0, vs_a.len() as int)[j] == vs_b[j]);
            assert(vs_c.subrange(0, vs_b.len() as int)[j] == vs_c[j]);
        }
        assert(vs_c.subrange(0, vs_enter.len() as int) =~= vs_enter);
        assert(vertex_at(vs_c, fs as int) == vertex_at(vs_a, fs as int));
        assert(vertex_at(vs_c, st as int) == vertex_at(vs_b, st as int));
    }
    out.push(f);
    out.push(fs);
    out.push(ft);
    out.push(fs);
    out.push(s);
    out.push(st);
    out.push(ft);
    out.push(st);
    out.push(w);
    out.push(fs);
    out.push(st);
    out.push(ft);
    proof {
        assert(out@.subrange(0, out_enter.len() as int) =~= out_enter);
        let base = out_enter.len() as int;
        assert(out@[base] == f && out@[base + 1] == fs && out@[base + 2] == ft);
        assert(out@[base + 3] == fs && out@[base + 4] == s && out@[base + 5] == st);
        assert(out@[base + 6] == ft && out@[base + 7] == st && out@[base + 8] == w);
        assert(out@[base + 9] == fs && out@[base + 10] == st && out@[base + 11] == ft);
        let r1 = mid_step(vs_enter, m_enter, vs0, f, s);
        let r2 = mid_step(r1.0, r1.1, vs0, s, w);
        let r3 = mid_step(r2.0, r2.1, vs0, f, w);
        assert(r1.0 == vs_a && r1.1 == m_a && r1.2 == fs);
        assert(r2.0 == vs_b && r2.1 == m_b && r2.2 == st);
        assert(r3.0 == vs_c && r3.1 == middles@ && r3.2 == ft);
        assert(out@ =~= out_enter + seq![f, fs, ft, fs, s, st, ft, st, w, fs, st, ft]);
        assert(out@ == tri_step(vs_enter, m_enter, out_enter, vs0, f, s, w).2);
    }
}

/// One subdivision pass.  Every triangle `(f, s, t)` of `indices` is
/// replaced by four triangles over the three renormalized edge
/// midpoints, looked up through a per-pass cache keyed by the
/// unordered edge, so the vertex buffer grows by exactly three
/// coordinates per distinct edge of the triangulation — however often
/// an edge is shared and in whichever orientation it is visited.
#[verifier::rlimit(100)]
pub fn subdivide(vertices: &mut Vec<i64>, indices: &Vec<u32>) -> (out: Vec<u32>)
    requires
        old(vertices)@.len() % 3 == 0,
        old(vertices)@.len() <= MESH_LIMIT,
        indices@.len() % 3 == 0,
        indices@.len() <= MESH_LIMIT,
        indices_valid(indices@, old(vertices)@.len() as int),
        coords_bounded(old(vertices)@, VTX_LIMIT as int),
    ensures
        final(vertices)@.len() == old(vertices)@.len() + 3 * edge_count(indices@),
        final(vertices)@.len() % 3 == 0,
        final(vertices)@.subrange(0, old(vertices)@.len() as int) == old(vertices)@,
        coords_bounded(final(vertices)@, VTX_LIMIT as int),
        out@.len() == 4 * indices@.len(),
        indices_valid(out@, final(vertices)@.len() as int),
        forall|t: int|
            0 <= t < indices@.len() / 3 ==> triangle_refined(
                indices@,
                out@,
                old(vertices)@,
                final(vertices)@,
                t,
            ),
        forall|p: int|
            old(vertices)@.len() / 3 <= p < final(vertices)@.len() / 3 ==> is_edge_midpoint(
                indices@,
                old(vertices)@,
                final(vertices)@,
                p,
            ),
        final(vertices)@ == subdivide_spec(old(vertices)@, indices@).0,
        out@ == subdivide_spec(old(vertices)@, indices@).1,
{
    let ghost vs0 = vertices@;
    let ghost ind = indices@;
    let tri_count: usize = indices.len() / 3;
    let mut middles: HashMap<u64, u32> = HashMap::new();
    let mut out: Vec<u32> = Vec::new();
    let mut k: usize = 0;
    proof {
        reveal(cache_ok);
        assert(edge_set_upto(ind, 0nat) =~= Set::<(u32, u32)>::empty());
        assert(cache_ok(middles@, edge_set_upto(ind, 0nat), vs0, vertices@));
        assert(middles@ =~= Map::<u64, u32>::empty());
        assert(out@ =~= Seq::<u32>::empty());
        assert(vertices@ == subdiv_upto(vs0, ind, 0nat).0);
        assert(middles@ == subdiv_upto(vs0, ind, 0nat).1);
        assert(out@ == subdiv_upto(vs0, ind, 0nat).2);
    }
    while k < tri_count
        invariant
            k <= tri_count,
            tri_count == ind.len() / 3,
            ind == indices@,
            ind.len() % 3 == 0,
            ind.len() <= MESH_LIMIT,
            vs0.len() % 3 == 0,
            vs0.len() <= MESH_LIMIT,
            indices_valid(ind, vs0.len() as int),
            vertices@.len() == vs0.len() + 3 * edge_set_upto(ind, k as nat).len(),
            vertices@.len() % 3 == 0,
            vertices@.subrange(0, vs0.len() as int) == vs0,
            coords_bounded(vertices@, VTX_LIMIT as int),
            cache_ok(middles@, edge_set_upto(ind, k as nat), vs0, vertices@),
            out@.len() == 12 * k,
            indices_valid(out@, vertices@.len() as int),
            forall|t: int| 0 <= t < k ==> triangle_refined(ind, out@, vs0, vertices@, t),
            vertices@ == subdiv_upto(vs0, ind, k as nat).0,
            middles@ == subdiv_upto(vs0, ind, k as nat).1,
            out@ == subdiv_upto(vs0, ind, k as nat).2,
        decreases tri_count - k,
    {
        let f: u32 = indices[3 * k];
        let s: u32 = indices[3 * k + 1];
        let w: u32 = indices[3 * k + 2];
        let ghost es0 = edge_set_upto(ind, k as nat);
        let ghost es3 = es0.insert(uedge(f, s)).insert(uedge(s, w)).insert(uedge(f, w));
        let ghost vs_enter = vertices@;
        let ghost mdl_enter = middles@;
        let ghost out_enter = out@;
        proof {
            lemma_edge_set_size(ind, k as nat);
            assert(es3 == edge_set_upto(ind, (k + 1) as nat));
            assert(3 * (f as int) + 2 < vs0.len() && 3 * (s as int) + 2 < vs0.len() && 3 * (
            w as int) + 2 < vs0.len());
        }
        refine_triangle(vertices, &mut middles, &mut out, f, s, w, Ghost(vs0), Ghost(es0));
        proof {
            assert(subdiv_upto(vs0, ind, (k + 1) as nat) == tri_step(
                vs_enter,
                mdl_enter,
                out_enter,
                vs0,
                f,
                s,
                w,
            ));
            assert(vertices@ == subdiv_upto(vs0, ind, (k + 1) as nat).0);
            assert(middles@ == subdiv_upto(vs0, ind, (k + 1) as nat).1);
            assert(out@ == subdiv_upto(vs0, ind, (k + 1) as nat).2);
            lemma_edge_set_size(ind, (k + 1) as nat);
            lemma_refined_stable(ind, out_enter, out@, vs0, vs_enter, vertices@, k as int);
            assert(refined_at(out@, 12 * (k as int), f, s, w, vs0, vertices@));
            assert(triangle_refined(ind, out@, vs0, vertices@, k as int));
            assert forall|j: int| 0 <= j < out@.len() implies 3 * (#[trigger] out@[j] as int) + 2
                < vertices@.len() by {
                if j < 12 * k {
                    assert(out@.subrange(0, out_enter.len() as int)[j] == out@[j]);
                    assert(out@[j] == out_enter[j]);
                    assert(3 * (out_enter[j] as int) + 2 < vs_enter.len());
                } else {
                    let base = 12 * (k as int);
                    assert(refined_at(out@, base, f, s, w, vs0, vertices@));
                    if j == base || j == base + 4 || j == base + 8 {
                    } else {
                        assert(out@[j] == out@[base + 1] || out@[j] == out@[base + 2] || out@[j]
                            == out@[base + 5]);
                    }
                }
            }
        }
        k = k + 1;
    }
    proof {
        reveal(cache_ok);
        let es = edge_set_upto(ind, tri_count as nat);
        assert(es == edge_set(ind));
        let base = vs0.len() as int / 3;
        let vcount = vertices@.len() as int / 3;
        assert forall|p: int| base <= p < vcount implies is_edge_midpoint(
            ind,
            vs0,
            vertices@,
            p,
        ) by {
            assert(covered(middles@, p));
            let k0 = choose|k0: u64| #[trigger] middles@.contains_key(k0) && middles@[k0] == p;
            assert(es.contains(uedge(khi(k0), klo(k0))));
            assert(vertex_at(vertices@, p) == mid_norm_spec(vs0, khi(k0) as int, klo(k0) as int));
        }
        assert(vertices@ == subdivide_spec(vs0, ind).0);
        assert(out@ == subdivide_spec(vs0, ind).1);
    }
    out
}


impl Sphere {
    /// Builds the vertex table of the canonical icosahedron.
    pub fn generate_icosahedron() -> (r: Vec<i64>)
        ensures
            r@ == icosahedron_spec(),
            r@.len() == 36,
            r@.len() % 3 == 0,
            coords_bounded(r@, VTX_LIMIT as int),
    {
        let v: Vec<i64> = vec![
        0, 0, 65536, -34454, -47422, 29309,
        34454, -47422, 29309, 55748, 18114, 29309,
        0, 58617, 29309, -55748, 18114, 29309,
        0, -58617, -29309, 55748, -18114, -29309,
        34454, 47422, -29309, -34454, 47422, -29309,
        -55748, -18114, -29309, 0, 0, -65536,
        ];
        proof {
            assert forall|j: int| 0 <= j < v@.len() implies abs_int(#[trigger] v@[j] as int)
                <= VTX_LIMIT as int by {}
        }
        v
    }

    /// Builds the face table of the canonical icosahedron.
    fn icosahedron_faces() -> (r: Vec<u32>)
        ensures
            r@ == icosahedron_faces_spec(),
            r@.len() == 60,
            r@.len() % 3 == 0,
            indices_valid(r@, 36),
    {
        let v: Vec<u32> = vec![
        0, 1, 2, 0, 2, 3, 0, 3, 4, 0, 4, 5,
        0, 5, 1, 1, 6, 2, 2, 6, 7, 2, 7, 3,
        3, 7, 8, 3, 8, 4, 4, 8, 9, 4, 9, 5,
        5, 9, 10, 5, 10, 1, 1, 10, 6, 11, 7, 6,
        11, 8, 7, 11, 9, 8, 11, 10, 9, 11, 6, 10,
        ];
        proof {
            assert forall|j: int| 0 <= j < v@.len() implies 3 * (#[trigger] v@[j] as int) + 2
                < 36 by {}
        }
        v
    }

    /// A fresh entity: identity model matrix, visible, empty mesh, no
    /// shader program.
    pub fn empty() -> (s: Sphere)
        ensures
            s.vertices@.len() == 0,
            s.indices@.len() == 0,
            s.normals@.len() == 0,
            s.matrix == identity_spec(),
            s.visible == true,
            s.program == 0,
            s.wf(),
    {
        Sphere {
            vertices: Vec::new(),
            indices: Vec::new(),
            normals: Vec::new(),
            matrix: Mat4x4::identity(),
            visible: true,
            program: 0,
        }
    }
}

/// Adds the centroid of triangle `t` into the accumulator slots of
/// its three corners, in corner order, each addition clamped.
#[verifier::rlimit(100)]
fn accumulate_triangle(
    normals: &mut Vec<i64>,
    vertices: &Vec<i64>,
    f: u32,
    s: u32,
    w: u32,
    Ghost(ind): Ghost<Seq<u32>>,
    Ghost(t): Ghost<int>,
)
    requires
        0 <= t < ind.len() / 3,
        ind[3 * t] == f,
        ind[3 * t + 1] == s,
        ind[3 * t + 2] == w,
        vertices@.len() <= usize::MAX,
        3 * (f as int) + 2 < vertices@.len(),
        3 * (s as int) + 2 < vertices@.len(),
        3 * (w as int) + 2 < vertices@.len(),
        coords_bounded(vertices@, VTX_LIMIT as int),
        old(normals)@.len() == vertices@.len(),
        coords_bounded(old(normals)@, SAT_LIMIT as int),
    ensures
        final(normals)@ == acc_tri(
            acc_tri(
                acc_tri(old(normals)@, ind[3 * t] as int, tri_centroid(vertices@, ind, t)),
                ind[3 * t + 1] as int,
                tri_centroid(vertices@, ind, t),
            ),
            ind[3 * t + 2] as int,
            tri_centroid(vertices@, ind, t),
        ),
        final(normals)@.len() == old(normals)@.len(),
        coords_bounded(final(normals)@, SAT_LIMIT as int),
{
    let fi: usize = f as usize * 3;
    let si: usize = s as usize * 3;
    let wi: usize = w as usize * 3;
    let ccx: i64 = avg3_exec(vertices[fi], vertices[si], vertices[wi]);
    let ccy: i64 = avg3_exec(vertices[fi + 1], vertices[si + 1], vertices[wi + 1]);
    let ccz: i64 = avg3_exec(vertices[fi + 2], vertices[si + 2], vertices[wi + 2]);
    proof {
        assert(Vec3 { x: ccx, y: ccy, z: ccz } == tri_centroid(vertices@, ind, t));
    }
    let ghost acc0 = normals@;
    let ghost c = Vec3 { x: ccx, y: ccy, z: ccz };
    let n0: i64 = normals[fi];
    normals[fi] = sat_add_exec(n0, ccx);
    let n1: i64 = normals[fi + 1];
    normals[fi + 1] = sat_add_exec(n1, ccy);
    let n2: i64 = normals[fi + 2];
    normals[fi + 2] = sat_add_exec(n2, ccz);
    proof {
        assert(normals@ =~= acc_tri(acc0, f as int, c));
    }
    let ghost acc1 = normals@;
    let n3: i64 = normals[si];
    normals[si] = sat_add_exec(n3, ccx);
    let n4: i64 = normals[si + 1];
    normals[si + 1] = sat_add_exec(n4, ccy);
    let n5: i64 = normals[si + 2];
    normals[si + 2] = sat_add_exec(n5, ccz);
    proof {
        assert(normals@ =~= acc_tri(acc1, s as int, c));
    }
    let ghost acc2 = normals@;
    let n6: i64 = normals[wi];
    normals[wi] = sat_add_exec(n6, ccx);
    let n7: i64 = normals[wi + 1];
    normals[wi + 1] = sat_add_exec(n7, ccy);
    let n8: i64 = normals[wi + 2];
    normals[wi + 2] = sat_add_exec(n8, ccz);
    proof {
        assert(normals@ =~= acc_tri(acc2, w as int, c));
        assert forall|j: int| 0 <= j < normals@.len() implies abs_int(
            #[trigger] normals@[j] as int,
        ) <= SAT_LIMIT as int by {
            if j != 3 * (f as int) && j != 3 * (f as int) + 1 && j != 3 * (f as int) + 2 && j
                != 3 * (s as int) && j != 3 * (s as int) + 1 && j != 3 * (s as int) + 2 && j != 3
                * (w as int) && j != 3 * (w as int) + 1 && j != 3 * (w as int) + 2 {
                assert(normals@[j] == acc0[j]);
            }
        }
    }
}

impl Sphere {
    /// Derives the smooth per-vertex normal field from the mesh: each
    /// triangle contributes its centroid to its three corners, and
    /// each accumulated triple is renormalized in place (a zero
    /// accumulation — an unused vertex — is kept as the zero vector).
    #[verifier::rlimit(100)]
    pub fn calculate_normals(&mut self)
        requires
            old(self).vertices@.len() % 3 == 0,
            old(self).indices@.len() % 3 == 0,
            indices_valid(old(self).indices@, old(self).vertices@.len() as int),
            coords_bounded(old(self).vertices@, VTX_LIMIT as int),
        ensures
            final(self).normals@ == normals_spec(old(self).vertices@, old(self).indices@),
            final(self).normals@.len() == old(self).vertices@.len(),
            coords_bounded(final(self).normals@, 2 * ONE as int),
            final(self).vertices == old(self).vertices,
            final(self).indices == old(self).indices,
            final(self).matrix == old(self).matrix,
            final(self).visible == old(self).visible,
            final(self).program == old(self).program,
    {
        let ghost vs = self.vertices@;
        let ghost ind = self.indices@;
        let vlen: usize = self.vertices.len();
        let tri_count: usize = self.indices.len() / 3;
        let mut normals: Vec<i64> = Vec::new();
        while normals.len() < vlen
            invariant
                normals@.len() <= vlen,
                forall|j: int| 0 <= j < normals@.len() ==> normals@[j] == 0i64,
            decreases vlen - normals@.len(),
        {
            normals.push(0);
        }
        proof {
            assert(normals@ =~= accum_upto(vs, ind, 0nat));
        }
        let mut t: usize = 0;
        while t < tri_count
            invariant
                t <= tri_count,
                tri_count == ind.len() / 3,
                3 * tri_count == ind.len(),
                ind.len() <= usize::MAX,
                vs == self.vertices@,
                ind == self.indices@,
                vs.len() == vlen,
                ind.len() % 3 == 0,
                indices_valid(ind, vs.len() as int),
                coords_bounded(vs, VTX_LIMIT as int),
                normals@.len() == vlen,
                normals@ == accum_upto(vs, ind, t as nat),
                coords_bounded(normals@, SAT_LIMIT as int),
            decreases tri_count - t,
        {
            let f: u32 = self.indices[3 * t];
            let s: u32 = self.indices[3 * t + 1];
            let w: u32 = self.indices[3 * t + 2];
            proof {
                assert(3 * (ind[3 * (t as int)] as int) + 2 < vs.len());
                assert(3 * (ind[3 * (t as int) + 1] as int) + 2 < vs.len());
                assert(3 * (ind[3 * (t as int) + 2] as int) + 2 < vs.len());
            }
            accumulate_triangle(&mut normals, &self.vertices, f, s, w, Ghost(ind), Ghost(t as int));
            proof {
                assert(normals@ == accum_upto(vs, ind, (t + 1) as nat));
            }
            t = t + 1;
        }
        let vcount: usize = vlen / 3;
        let ghost accf = accum_upto(vs, ind, (ind.len() / 3) as nat);
        proof {
            assert(accf == normals@);
        }
        let mut vtx: usize = 0;
        while vtx < vcount
            invariant
                vtx <= vcount,
                vcount == vs.len() / 3,
                3 * vcount == vs.len(),
                accf.len() == vlen,
                vs.len() % 3 == 0,
                vs.len() == vlen,
                accf == accum_upto(vs, ind, (ind.len() / 3) as nat),
                normals@.len() == vlen,
                forall|j: int| 0 <= j < 3 * vtx ==> normals@[j] == normals_spec(vs, ind)[j],
                forall|j: int| 3 * vtx <= j < vlen ==> normals@[j] == accf[j],
                forall|j: int|
                    0 <= j < 3 * vtx ==> abs_int(#[trigger] normals@[j] as int) <= 2 * ONE as int,
                forall|j: int|
                    3 * vtx <= j < vlen ==> abs_int(#[trigger] normals@[j] as int)
                        <= SAT_LIMIT as int,
            decreases vcount - vtx,
        {
            let i0: usize = 3 * vtx;
            let nv: Vec3 = Vec3 { x: normals[i0], y: normals[i0 + 1], z: normals[i0 + 2] };
            proof {
                assert(nv == vertex_at(accf, vtx as int));
            }
            let ghost before = normals@;
            let lsq: i64 = nv.len_squared();
            if lsq > 0 {
                let u: Vec3 = nv.normalized();
                normals[i0] = u.x;
                normals[i0 + 1] = u.y;
                normals[i0 + 2] = u.z;
            } else {
                proof {
                    crate::math::lemma_zero_len_sq_small(nv);
                }
            }
            proof {
                let target = normals_spec(vs, ind);
                assert forall|j: int| 3 * (vtx as int) <= j < 3 * (vtx as int) + 3 implies
                    normals@[j] == target[j] && abs_int(normals@[j] as int) <= 2 * ONE as int by {
                    assert(j / 3 == vtx as int);
                    assert(vertex_at(accf, j / 3) == nv);
                }
                assert forall|j: int| 0 <= j < 3 * (vtx as int) implies normals@[j] == #[trigger] target[j]
                    && abs_int(normals@[j] as int) <= 2 * ONE as int by {
                    assert(normals@[j] == before[j]);
                }
            }
            vtx = vtx + 1;
        }
        proof {
            assert(normals@ =~= normals_spec(vs, ind));
        }
        self.normals = normals;
    }
}

/// The canonical icosahedron has exactly thirty distinct unordered
/// edges: each of its twelve vertices meets five of them.
#[verifier::rlimit(100)]
proof fn lemma_icosahedron_edge_count()
    ensures
        edge_count(icosahedron_faces_spec()) == 30,
{
    let ind = icosahedron_faces_spec();
    assert(ind.len() == 60);
    assert(edge_set_upto(ind, 0nat) =~= Set::empty());
    assert(edge_set_upto(ind, 0nat).len() == 0);
    assert(edge_set_upto(ind, 1nat).len() == 3);
    assert(edge_set_upto(ind, 2nat).len() == 5);
    assert(edge_set_upto(ind, 3nat).len() == 7);
    assert(edge_set_upto(ind, 4nat).len() == 9);
    assert(edge_set_upto(ind, 5nat).len() == 10);
    assert(edge_set_upto(ind, 6nat).len() == 12);
    assert(edge_set_upto(ind, 7nat).len() == 14);
    assert(edge_set_upto(ind, 8nat).len() == 15);
    assert(edge_set_upto(ind, 9nat).len() == 17);
    assert(edge_set_upto(ind, 10nat).len() == 18);
    assert(edge_set_upto(ind, 11nat).len() == 20);
    assert(edge_set_upto(ind, 12nat).len() == 21);
    assert(edge_set_upto(ind, 13nat).len() == 23);
    assert(edge_set_upto(ind, 14nat).len() == 24);
    assert(edge_set_upto(ind, 15nat).len() == 25);
    assert(edge_set_upto(ind, 16nat).len() == 27);
    assert(edge_set_upto(ind, 17nat).len() == 28);
    assert(edge_set_upto(ind, 18nat).len() == 29);
    assert(edge_set_upto(ind, 19nat).len() == 30);
    assert(edge_set_upto(ind, 20nat).len() == 30);
}

/// `pow4` is monotone and at least one.
proof fn lemma_pow4_mono(a: nat, b: nat)
    requires
        a <= b,
    ensures
        pow4(a) <= pow4(b),
        1 <= pow4(a),
    decreases b,
{
    if a == b {
        if a == 0 {
        } else {
            lemma_pow4_mono((a - 1) as nat, (b - 1) as nat);
        }
    } else {
        lemma_pow4_mono(a, (b - 1) as nat);
    }
}

/// The small values of `pow4`.
proof fn lemma_pow4_values()
    ensures
        pow4(9nat) == 262144,
        pow4(10nat) == 1048576,
{
    assert(pow4(0nat) == 1);
    assert(pow4(1nat) == 4);
    assert(pow4(2nat) == 16);
    assert(pow4(3nat) == 64);
    assert(pow4(4nat) == 256);
    assert(pow4(5nat) == 1024);
    assert(pow4(6nat) == 4096);
    assert(pow4(7nat) == 16384);
    assert(pow4(8nat) == 65536);
    assert(pow4(9nat) == 262144);
    assert(pow4(10nat) == 1048576);
}

impl Sphere {
    /// Builds the geodesic sphere of the given subdivision level: the
    /// canonical icosahedron refined `subdivision` times, with the
    /// normal field computed as the final step.  Each pass grows the
    /// vertex buffer by exactly one vertex per distinct unordered edge
    /// and quadruples the triangle count, so the face count is
    /// `20 * 4^subdivision`.  The whole mesh is the exact value of
    /// [`mesh_level_spec`], a pure function of the level, so
    /// construction is deterministic: two spheres of the same level
    /// hold identical buffers.
    pub fn new(subdivision: usize) -> (s: Sphere)
        requires
            subdivision <= 10,
        ensures
            s.wf(),
            s.vertices@ == mesh_level_spec(subdivision as nat).0,
            s.indices@ == mesh_level_spec(subdivision as nat).1,
            s.indices@.len() == 60 * pow4(subdivision as nat),
            36 <= s.vertices@.len(),
            s.vertices@.subrange(0, 36) == icosahedron_spec(),
            subdivision == 0 ==> s.vertices@ == icosahedron_spec() && s.indices@
                == icosahedron_faces_spec(),
            subdivision == 1 ==> s.vertices@.len() == 126 && s.indices@.len() == 240,
            s.normals@ == normals_spec(s.vertices@, s.indices@),
            coords_bounded(s.normals@, 2 * ONE as int),
            s.matrix == identity_spec(),
            s.visible == true,
            s.program == 0,
            exists|chain: Seq<(Seq<i64>, Seq<u32>)>|
                {
                    &&& (#[trigger] chain.len()) == subdivision + 1
                    &&& chain[0].0 == icosahedron_spec()
                    &&& chain[0].1 == icosahedron_faces_spec()
                    &&& chain[subdivision as int].0 == s.vertices@
                    &&& chain[subdivision as int].1 == s.indices@
                    &&& refinement_chain(chain)
                },
    {
        let mut sphere = Sphere::empty();
        sphere.vertices = Sphere::generate_icosahedron();
        sphere.indices = Sphere::icosahedron_faces();
        proof {
            lemma_pow4_values();
        }
        let ghost mut chain: Seq<(Seq<i64>, Seq<u32>)> = seq![
            (icosahedron_spec(), icosahedron_faces_spec()),
        ];
        let mut pass: usize = 0;
        while pass < subdivision
            invariant
                pass <= subdivision <= 10,
                sphere.indices@.len() == 60 * pow4(pass as nat),
                sphere.indices@.len() % 3 == 0,
                sphere.vertices@.len() % 3 == 0,
                36 <= sphere.vertices@.len() <= 36 + 60 * pow4(pass as nat),
                indices_valid(sphere.indices@, sphere.vertices@.len() as int),
                coords_bounded(sphere.vertices@, VTX_LIMIT as int),
                sphere.vertices@.subrange(0, 36) == icosahedron_spec(),
                sphere.vertices@ == mesh_level_spec(pass as nat).0,
                sphere.indices@ == mesh_level_spec(pass as nat).1,
                pass == 0 ==> sphere.vertices@ == icosahedron_spec() && sphere.indices@
                    == icosahedron_faces_spec(),
                sphere.matrix == identity_spec(),
                sphere.visible == true,
                sphere.program == 0,
                chain.len() == pass + 1,
                chain[0].0 == icosahedron_spec() && chain[0].1 == icosahedron_faces_spec(),
                chain[pass as int].0 == sphere.vertices@,
                chain[pass as int].1 == sphere.indices@,
                refinement_chain(chain),
            decreases subdivision - pass,
        {
            proof {
                lemma_pow4_values();
                lemma_pow4_mono(pass as nat, 9nat);
                assert(sphere.indices@.len() <= 60 * 262144);
                assert(sphere.vertices@.len() <= 36 + 60 * 262144);
            }
            let ghost vs_before = sphere.vertices@;
            let ghost ind_before = sphere.indices@;
            let refined: Vec<u32> = subdivide(&mut sphere.vertices, &sphere.indices);
            proof {
                assert(sphere.vertices@ == subdivide_spec(vs_before, ind_before).0);
                assert(refined@ == subdivide_spec(vs_before, ind_before).1);
                assert(mesh_level_spec((pass + 1) as nat) == subdivide_spec(
                    mesh_level_spec(pass as nat).0,
                    mesh_level_spec(pass as nat).1,
                ));
                lemma_edge_set_size(sphere.indices@, (sphere.indices@.len() / 3) as nat);
                assert(pow4((pass + 1) as nat) == 4 * pow4(pass as nat));
                assert forall|j: int| 0 <= j < 36 implies sphere.vertices@[j]
                    == #[trigger] vs_before[j] by {
                    assert(sphere.vertices@.subrange(0, vs_before.len() as int)[j]
                        == sphere.vertices@[j]);
                }
                assert(sphere.vertices@.subrange(0, 36) =~= icosahedron_spec());
            }
            sphere.indices = refined;
            proof {
                let ghost prev = chain;
                chain = chain.push((sphere.vertices@, sphere.indices@));
                assert(mesh_refines(
                    prev[pass as int].0,
                    prev[pass as int].1,
                    sphere.vertices@,
                    sphere.indices@,
                ));
                assert forall|i: int| 0 <= i < chain.len() - 1 implies mesh_refines(
                    (#[trigger] chain[i]).0,
                    chain[i].1,
                    chain[i + 1].0,
                    chain[i + 1].1,
                ) by {
                    if i < prev.len() - 1 {
                        assert(chain[i] == prev[i]);
                        assert(chain[i + 1] == prev[i + 1]);
                        assert(mesh_refines(prev[i].0, prev[i].1, prev[i + 1].0, prev[i + 1].1));
                    } else {
                        assert(chain[i] == prev[pass as int]);
                        assert(chain[i + 1] == (sphere.vertices@, sphere.indices@));
                    }
                }
            }
            pass = pass + 1;
        }
        proof {
            assert(chain.len() == subdivision + 1);
            if subdivision == 1 {
                lemma_icosahedron_edge_count();
                assert(mesh_refines(chain[0].0, chain[0].1, chain[1].0, chain[1].1));
                assert(sphere.vertices@.len() == 36 + 3 * edge_count(icosahedron_faces_spec()));
            }
        }
        sphere.calculate_normals();
        sphere
    }
}

impl Transform for Sphere {
    open spec fn model(&self) -> Mat4x4 {
        self.matrix
    }

    fn get_matrix(&self) -> (m: Mat4x4) {
        self.matrix
    }

    fn set_matrix(&mut self, matrix: Mat4x4) {
        self.matrix = matrix;
    }
}

impl Visible for Sphere {
    open spec fn visibility(&self) -> bool {
        self.visible
    }

    fn set_visibility(&mut self, visible: bool) {
        self.visible = visible;
    }

    fn get_visibility(&self) -> (r: bool) {
        self.visible
    }
}

impl Meshed for Sphere {
    open spec fn mesh_vertices(&self) -> Seq<i64> {
        self.vertices@
    }

    open spec fn mesh_indices(&self) -> Seq<u32> {
        self.indices@
    }

    open spec fn mesh_normals(&self) -> Seq<i64> {
        self.normals@
    }

    fn get_vertices(&self) -> (r: &Vec<i64>) {
        &self.vertices
    }

    fn set_vertices(&mut self, vertices: Vec<i64>) {
        self.vertices = vertices;
    }

    fn get_indices(&self) -> (r: &Vec<u32>) {
        &self.indices
    }

    fn set_indices(&mut self, indices: Vec<u32>) {
        self.indices = indices;
    }

    fn get_normals(&self) -> (r: &Vec<i64>) {
        &self.normals
    }

    fn set_normals(&mut self, normals: Vec<i64>) {
        self.normals = normals;
    }
}

impl Shaded for Sphere {
    open spec fn shader_program(&self) -> u32 {
        self.program
    }

    fn get_shader_program(&self) -> (r: u32) {
        self.program
    }

    fn set_shader_program(&mut self, id: u32) {
        self.program = id;
    }
}

/// The unit-sphere law for subdivision: an edge midpoint of positive
/// fixed-point squared length is projected onto the unit sphere within
/// tolerance — its renormalized squared length differs from `ONE` by
/// at most 16 fixed-point units.  (A zero-length raw midpoint would
/// arise only from an edge of exactly opposite endpoints, which the
/// icosahedron's refinement never produces.)
pub proof fn lemma_midpoint_near_unit(vs0: Seq<i64>, a: int, b: int)
    requires
        0 <= a,
        0 <= b,
        3 * a + 2 < vs0.len(),
        3 * b + 2 < vs0.len(),
        coords_bounded(vs0, VTX_LIMIT as int),
        len_sq_spec(mid_raw_spec(vs0, a, b)) > 0,
    ensures
        (ONE as int) - 16 <= len_sq_spec(mid_norm_spec(vs0, a, b)) <= (ONE as int) + 16,
{
    let mid = mid_raw_spec(vs0, a, b);
    crate::fixed::lemma_div_trunc_bound(
        vs0[3 * a] as int + vs0[3 * b] as int,
        2,
        2 * VTX_LIMIT as int,
    );
    crate::fixed::lemma_div_trunc_bound(
        vs0[3 * a + 1] as int + vs0[3 * b + 1] as int,
        2,
        2 * VTX_LIMIT as int,
    );
    crate::fixed::lemma_div_trunc_bound(
        vs0[3 * a + 2] as int + vs0[3 * b + 2] as int,
        2,
        2 * VTX_LIMIT as int,
    );
    assert(vec_bounded(mid, VTX_LIMIT as int));
    crate::math::lemma_normalized_near_unit(mid);
}

/// The outward-pointing law at the normalization step: a renormalized
/// normal keeps pointing the way of its accumulated direction — their
/// dot product is strictly positive.
pub proof fn lemma_normal_points_along(n: Vec3)
    requires
        vec_bounded(n, SAT_LIMIT as int),
        len_sq_spec(n) > 0,
    ensures
        crate::math::dot_spec(norm_or_keep(n), n) > 0,
{
    crate::math::lemma_normalized_points_along(n);
}

/// The unit-normal law: an accumulated normal of positive fixed-point
/// squared length is renormalized onto the unit sphere within
/// tolerance — its squared length differs from `ONE` by at most 16
/// fixed-point units.
pub proof fn lemma_normal_near_unit(n: Vec3)
    requires
        vec_bounded(n, SAT_LIMIT as int),
        len_sq_spec(n) > 0,
    ensures
        (ONE as int) - 16 <= len_sq_spec(norm_or_keep(n)) <= (ONE as int) + 16,
{
    crate::math::lemma_normalized_near_unit(n);
}

/// The unordered edge `e` (0, 1 or 2) of triangle `t`: its
/// first-second, second-third or first-third corners.
pub open spec fn tri_edge(ind: Seq<u32>, t: int, e: int) -> (u32, u32) {
    if e == 0 {
        uedge(ind[3 * t], ind[3 * t + 1])
    } else if e == 1 {
        uedge(ind[3 * t + 1], ind[3 * t + 2])
    } else {
        uedge(ind[3 * t], ind[3 * t + 2])
    }
}

/// The midpoint index the refined triangle `t` names for its edge `e`
/// in a refined index list.
pub open spec fn mid_slot(out: Seq<u32>, t: int, e: int) -> u32 {
    if e == 0 {
        out[12 * t + 1]
    } else if e == 1 {
        out[12 * t + 5]
    } else {
        out[12 * t + 2]
    }
}

/// The unordered edge `p` is cached under at least one directed form.
spec fn edge_in(m: Map<u64, u32>, p: (u32, u32)) -> bool {
    m.contains_key(ekey(p.0, p.1)) || m.contains_key(ekey(p.1, p.0))
}

/// The midpoint index the cache holds for the unordered edge `p`,
/// under whichever directed form is present.
spec fn cache_midx(m: Map<u64, u32>, p: (u32, u32)) -> u32 {
    if m.contains_key(ekey(p.0, p.1)) {
        m[ekey(p.0, p.1)]
    } else {
        m[ekey(p.1, p.0)]
    }
}

/// No edge is cached under both directed forms (unless the two forms
/// are the same key).
spec fn cache_uniq(m: Map<u64, u32>) -> bool {
    forall|a: u32, b: u32|
        m.contains_key(ekey(a, b)) && #[trigger] m.contains_key(ekey(b, a)) ==> ekey(a, b) == ekey(
            b,
            a,
        )
}

/// One midpoint lookup keeps the cache free of duplicate edge forms,
/// leaves every cached edge's midpoint index unchanged, and returns
/// exactly the index the grown cache holds for its edge.
proof fn lemma_mid_step(vs: Seq<i64>, m: Map<u64, u32>, vs0: Seq<i64>, a: u32, b: u32)
    requires
        cache_uniq(m),
    ensures
        ({
            let r = mid_step(vs, m, vs0, a, b);
            &&& cache_uniq(r.1)
            &&& edge_in(r.1, uedge(a, b))
            &&& r.2 == cache_midx(r.1, uedge(a, b))
            &&& forall|p: (u32, u32)|
                edge_in(m, p) ==> #[trigger] edge_in(r.1, p) && cache_midx(r.1, p) == cache_midx(
                    m,
                    p,
                )
        }),
{
    lemma_ekey_split(a, b);
    lemma_ekey_split(b, a);
    let r = mid_step(vs, m, vs0, a, b);
    if m.contains_key(ekey(a, b)) || m.contains_key(ekey(b, a)) {
        assert(r.1 == m);
        if m.contains_key(ekey(a, b)) && m.contains_key(ekey(b, a)) {
            assert(ekey(a, b) == ekey(b, a));
        }
        assert(r.2 == cache_midx(m, uedge(a, b)));
    } else {
        let nk = ekey(a, b);
        let idx = (vs.len() / 3) as u32;
        assert(r.1 == m.insert(nk, idx));
        assert forall|x: u32, y: u32|
            r.1.contains_key(ekey(x, y)) && #[trigger] r.1.contains_key(ekey(y, x)) implies ekey(
            x,
            y,
        ) == ekey(y, x) by {
            lemma_ekey_split(x, y);
            lemma_ekey_split(y, x);
            if ekey(x, y) == nk {
                assert(x == a && y == b);
                if r.1.contains_key(ekey(y, x)) && ekey(y, x) != nk {
                    assert(m.contains_key(ekey(b, a)));
                    assert(false);
                }
            } else if ekey(y, x) == nk {
                assert(y == a && x == b);
                if r.1.contains_key(ekey(x, y)) && ekey(x, y) != nk {
                    assert(m.contains_key(ekey(b, a)));
                    assert(false);
                }
            }
        }
        assert(r.1.contains_key(nk) && r.1[nk] == idx);
        if uedge(a, b) == (a, b) {
            assert(cache_midx(r.1, uedge(a, b)) == idx);
        } else {
            assert(uedge(a, b) == (b, a));
            if r.1.contains_key(ekey(b, a)) {
                assert(ekey(b, a) == nk);
                assert(cache_midx(r.1, uedge(a, b)) == idx);
            } else {
                assert(cache_midx(r.1, uedge(a, b)) == r.1[ekey(a, b)]);
            }
        }
        assert forall|p: (u32, u32)| edge_in(m, p) implies #[trigger] edge_in(r.1, p)
            && cache_midx(r.1, p) == cache_midx(m, p) by {
            lemma_ekey_split(p.0, p.1);
            lemma_ekey_split(p.1, p.0);
            if nk == ekey(p.0, p.1) {
                assert(a == p.0 && b == p.1);
                assert(m.contains_key(ekey(p.1, p.0)));
                assert(false);
            }
            if nk == ekey(p.1, p.0) {
                assert(a == p.1 && b == p.0);
                assert(m.contains_key(ekey(p.0, p.1)) || m.contains_key(ekey(p.1, p.0)));
                assert(false);
            }
        }
    }
}

/// The slot law of the subdivision fold: after `k` triangles, every
/// refined triangle's three midpoint slots hold exactly the index the
/// final cache assigns to the corresponding unordered edge.
proof fn lemma_subdiv_slots(vs0: Seq<i64>, ind: Seq<u32>, k: nat)
    requires
        3 * k <= ind.len(),
    ensures
        ({
            let r = subdiv_upto(vs0, ind, k);
            &&& cache_uniq(r.1)
            &&& r.2.len() == 12 * k
            &&& forall|t: int, e: int|
                0 <= t < k && 0 <= e < 3 ==> #[trigger] edge_in(r.1, tri_edge(ind, t, e))
                    && mid_slot(r.2, t, e) == cache_midx(r.1, tri_edge(ind, t, e))
        }),
    decreases k,
{
    if k == 0 {
        assert(subdiv_upto(vs0, ind, 0nat).1 =~= Map::<u64, u32>::empty());
    } else {
        lemma_subdiv_slots(vs0, ind, (k - 1) as nat);
        let p = subdiv_upto(vs0, ind, (k - 1) as nat);
        let t0 = (k - 1) as int;
        let f = ind[3 * t0];
        let s = ind[3 * t0 + 1];
        let w = ind[3 * t0 + 2];
        let r1 = mid_step(p.0, p.1, vs0, f, s);
        let r2 = mid_step(r1.0, r1.1, vs0, s, w);
        let r3 = mid_step(r2.0, r2.1, vs0, f, w);
        lemma_mid_step(p.0, p.1, vs0, f, s);
        lemma_mid_step(r1.0, r1.1, vs0, s, w);
        lemma_mid_step(r2.0, r2.1, vs0, f, w);
        let r = subdiv_upto(vs0, ind, k);
        assert(r.1 == r3.1);
        assert(r.2 == p.2 + seq![f, r1.2, r3.2, r1.2, s, r2.2, r3.2, r2.2, w, r1.2, r2.2, r3.2]);
        assert(r.2.len() == 12 * k);
        assert forall|t: int, e: int| 0 <= t < k && 0 <= e < 3 implies #[trigger] edge_in(
            r.1,
            tri_edge(ind, t, e),
        ) && mid_slot(r.2, t, e) == cache_midx(r.1, tri_edge(ind, t, e)) by {
            if t < k - 1 {
                assert(edge_in(p.1, tri_edge(ind, t, e)));
                assert(mid_slot(p.2, t, e) == cache_midx(p.1, tri_edge(ind, t, e)));
                assert(edge_in(r1.1, tri_edge(ind, t, e)) && cache_midx(r1.1, tri_edge(ind, t, e))
                    == cache_midx(p.1, tri_edge(ind, t, e)));
                assert(edge_in(r2.1, tri_edge(ind, t, e)) && cache_midx(r2.1, tri_edge(ind, t, e))
                    == cache_midx(r1.1, tri_edge(ind, t, e)));
                assert(edge_in(r3.1, tri_edge(ind, t, e)) && cache_midx(r3.1, tri_edge(ind, t, e))
                    == cache_midx(r2.1, tri_edge(ind, t, e)));
                assert(12 * t + 11 < p.2.len());
                assert(mid_slot(r.2, t, e) == mid_slot(p.2, t, e));
            } else {
                assert(t == t0);
                assert(mid_slot(r.2, t0, 0) == r1.2);
                assert(mid_slot(r.2, t0, 1) == r2.2);
                assert(mid_slot(r.2, t0, 2) == r3.2);
                assert(r1.2 == cache_midx(r1.1, uedge(f, s)));
                assert(edge_in(r2.1, uedge(f, s)) && cache_midx(r2.1, uedge(f, s)) == cache_midx(
                    r1.1,
                    uedge(f, s),
                ));
                assert(edge_in(r3.1, uedge(f, s)) && cache_midx(r3.1, uedge(f, s)) == cache_midx(
                    r2.1,
                    uedge(f, s),
                ));
                assert(r2.2 == cache_midx(r2.1, uedge(s, w)));
                assert(edge_in(r3.1, uedge(s, w)) && cache_midx(r3.1, uedge(s, w)) == cache_midx(
                    r2.1,
                    uedge(s, w),
                ));
                assert(r3.2 == cache_midx(r3.1, uedge(f, w)));
            }
        }
    }
}

/// The shared-midpoint law of edge deduplication: in one subdivision
/// pass, any two refined triangles that share an unordered edge name
/// the very same midpoint vertex index for it — whichever triangle is
/// refined first and in whichever orientation each visits the edge.
pub proof fn lemma_shared_edge_same_index(
    vs0: Seq<i64>,
    ind: Seq<u32>,
    t1: int,
    e1: int,
    t2: int,
    e2: int,
)
    requires
        ind.len() % 3 == 0,
        0 <= t1 < ind.len() / 3,
        0 <= e1 < 3,
        0 <= t2 < ind.len() / 3,
        0 <= e2 < 3,
        tri_edge(ind, t1, e1) == tri_edge(ind, t2, e2),
    ensures
        mid_slot(subdivide_spec(vs0, ind).1, t1, e1) == mid_slot(
            subdivide_spec(vs0, ind).1,
            t2,
            e2,
        ),
{
    lemma_subdiv_slots(vs0, ind, (ind.len() / 3) as nat);
    let r = subdiv_upto(vs0, ind, (ind.len() / 3) as nat);
    assert(edge_in(r.1, tri_edge(ind, t1, e1)) && mid_slot(r.2, t1, e1) == cache_midx(
        r.1,
        tri_edge(ind, t1, e1),
    ));
    assert(edge_in(r.1, tri_edge(ind, t2, e2)) && mid_slot(r.2, t2, e2) == cache_midx(
        r.1,
        tri_edge(ind, t2, e2),
    ));
    assert(subdivide_spec(vs0, ind).1 == r.2);
}

} // verus!
