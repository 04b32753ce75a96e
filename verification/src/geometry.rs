//! Index topology of the procedural meshes: the UV sphere and the brush
//! cursor's ring ribbons and disks, plus the vertex buffer layouts.
//!
//! Vertex positions, normals and UVs are real numbers computed by the
//! renderer; which vertices form which triangle is decided here.

use vstd::prelude::*;

verus! {

// ── UV sphere ───────────────────────────────────────────────────────────────

/// Longitude subdivisions actually used for a requested count (at least 3).
pub open spec fn sphere_sectors(sectors: u32) -> nat {
    if sectors < 3 {
        3
    } else {
        sectors as nat
    }
}

/// Latitude subdivisions actually used for a requested count (at least 2).
pub open spec fn sphere_stacks(stacks: u32) -> nat {
    if stacks < 2 {
        2
    } else {
        stacks as nat
    }
}

/// Number of vertices of a sphere with `s` sectors and `t` stacks: one ring
/// of `s + 1` vertices (the seam is duplicated) per latitude line.
pub open spec fn sphere_vertex_count(s: nat, t: nat) -> nat {
    (t + 1) * (s + 1)
}

/// Triangles of the quad in stack `i`, sector `j`: the upper one is left out
/// at the north pole and the lower one at the south pole.
pub open spec fn quad_indices(s: nat, t: nat, i: nat, j: nat) -> Seq<u32> {
    let k1 = i * (s + 1) + j;
    let k2 = k1 + s + 1;
    (if i != 0 {
        seq![k1 as u32, k2 as u32, (k1 + 1) as u32]
    } else {
        seq![]
    }) + (if i != t - 1 {
        seq![(k1 + 1) as u32, k2 as u32, (k2 + 1) as u32]
    } else {
        seq![]
    })
}

/// Indices of the first `c` quads, stack by stack and sector by sector.
pub open spec fn sphere_cells(s: nat, t: nat, c: nat) -> Seq<u32>
    decreases c,
{
    if c == 0 || s == 0 {
        seq![]
    } else {
        sphere_cells(s, t, (c - 1) as nat) + quad_indices(
            s,
            t,
            ((c - 1) as nat) / s,
            ((c - 1) as nat) % s,
        )
    }
}

/// Index list of the UV sphere built for the requested subdivisions.
pub open spec fn sphere_index_list(sectors: u32, stacks: u32) -> Seq<u32> {
    let s = sphere_sectors(sectors);
    let t = sphere_stacks(stacks);
    sphere_cells(s, t, s * t)
}

/// Triangle indices of a UV sphere with `sectors` longitude and `stacks`
/// latitude subdivisions (raised to at least 3 and 2), two triangles per
/// quad with the degenerate ones at the poles left out.  Vertex `i * (s + 1)
/// + j` is the one of stack line `i` and sector line `j`.
pub fn sphere_indices(sectors: u32, stacks: u32) -> (r: Vec<u32>)
    requires
        sphere_vertex_count(sphere_sectors(sectors), sphere_stacks(stacks)) <= u32::MAX + 1,
    ensures
        r@ == sphere_index_list(sectors, stacks),
{
    let s: u32 = if sectors < 3 {
        3
    } else {
        sectors
    };
    let t: u32 = if stacks < 2 {
        2
    } else {
        stacks
    };
    let ghost sn = s as nat;
    let ghost tn = t as nat;
    proof {
        assert((tn + 1) * (sn + 1) == tn * (sn + 1) + sn + 1) by (nonlinear_arith);
        assert(tn * (sn + 1) >= tn * sn) by (nonlinear_arith);
    }
    let mut indices: Vec<u32> = Vec::new();
    let mut i: u32 = 0;
    while i < t
        invariant
            sn == s,
            tn == t,
            s >= 3,
            t >= 2,
            (tn + 1) * (sn + 1) <= u32::MAX + 1,
            i <= t,
            indices@ == sphere_cells(sn, tn, (i * sn) as nat),
        decreases t - i,
    {
        let mut j: u32 = 0;
        while j < s
            invariant
                sn == s,
                tn == t,
                s >= 3,
                t >= 2,
                (tn + 1) * (sn + 1) <= u32::MAX + 1,
                i < t,
                j <= s,
                indices@ == sphere_cells(sn, tn, (i * sn + j) as nat),
            decreases s - j,
        {
            proof {
                assert((i + 1) * (sn + 1) <= tn * (sn + 1)) by (nonlinear_arith)
                    requires
                        i + 1 <= tn,
                ;
                assert(tn * (sn + 1) + sn + 1 == (tn + 1) * (sn + 1)) by (nonlinear_arith);
                assert((i + 1) * (sn + 1) == i * (sn + 1) + sn + 1) by (nonlinear_arith);
                assert(((i * sn + j) as nat) / sn == i && ((i * sn + j) as nat) % sn == j) by (nonlinear_arith)
                    requires
                        j < sn,
                        sn > 0,
                ;
            }
            let k1 = i * (s + 1) + j;
            let k2 = k1 + s + 1;
            let ghost before = indices@;
            if i != 0 {
                indices.push(k1);
                indices.push(k2);
                indices.push(k1 + 1);
            }
            if i != t - 1 {
                indices.push(k1 + 1);
                indices.push(k2);
                indices.push(k2 + 1);
            }
            proof {
                let c = (i * sn + j + 1) as nat;
                assert(((c - 1) as nat) / sn == i as nat);
                assert(((c - 1) as nat) % sn == j as nat);
                assert(indices@ =~= before + quad_indices(sn, tn, i as nat, j as nat));
            }
            j = j + 1;
        }
        proof {
            assert(i * sn + sn == (i + 1) * sn) by (nonlinear_arith);
        }
        i = i + 1;
    }
    indices
}

/// Twice the signed area of the triangle `a, b, c` of sphere vertices laid
/// out on their grid: vertex `v` of a sphere with `s` sectors lies in row
/// `v / (s + 1)` (its stack line) and column `v % (s + 1)` (its sector line).
/// Triangles of one winding all give the same sign.
pub open spec fn grid_orientation(s: nat, a: u32, b: u32, c: u32) -> int {
    let w = (s + 1) as int;
    let (ra, ca) = (a as int / w, a as int % w);
    let (rb, cb) = (b as int / w, b as int % w);
    let (rc, cc) = (c as int / w, c as int % w);
    (cb - ca) * (rc - ra) - (cc - ca) * (rb - ra)
}

proof fn lemma_grid_coords(w: int, r: int, c: int)
    requires
        w > 0,
        0 <= c < w,
    ensures
        (r * w + c) / w == r,
        (r * w + c) % w == c,
{
    vstd::arithmetic::div_mod::lemma_fundamental_div_mod_converse(r * w + c, w, r, c);
}

/// The two triangles of a quad are wound the same way.
proof fn lemma_quad_winding(s: nat, t: nat, i: nat, j: nat)
    requires
        s >= 1,
        t >= 2,
        i < t,
        j < s,
        (t + 1) * (s + 1) <= u32::MAX + 1,
    ensures
        forall|m: int|
            0 <= m < quad_indices(s, t, i, j).len() / 3 ==> grid_orientation(
                s,
                #[trigger] quad_indices(s, t, i, j)[3 * m],
                quad_indices(s, t, i, j)[3 * m + 1],
                quad_indices(s, t, i, j)[3 * m + 2],
            ) == -1,
{
    lemma_quad_properties(s, t, i, j);
    assert((i + 1) * (s + 1) <= t * (s + 1)) by (nonlinear_arith)
        requires
            i + 1 <= t,
    ;
    assert((i + 1) * (s + 1) == i * (s + 1) + s + 1) by (nonlinear_arith);
    assert((t + 1) * (s + 1) == t * (s + 1) + s + 1) by (nonlinear_arith);
    let w = (s + 1) as int;
    let k1 = i * (s + 1) + j;
    let k2 = k1 + s + 1;
    assert(k2 + 1 < (t + 1) * (s + 1));
    assert(k2 == (i + 1) * (s + 1) + j);
    lemma_grid_coords(w, i as int, j as int);
    lemma_grid_coords(w, i as int, (j + 1) as int);
    lemma_grid_coords(w, (i + 1) as int, j as int);
    lemma_grid_coords(w, (i + 1) as int, (j + 1) as int);
    let a1 = k1 as u32;
    let b1 = k2 as u32;
    let c1 = (k1 + 1) as u32;
    let d1 = (k2 + 1) as u32;
    assert(a1 as int == i * w + j);
    assert(c1 as int == i * w + (j + 1));
    assert(b1 as int == (i + 1) * w + j);
    assert(d1 as int == (i + 1) * w + (j + 1));
    assert(a1 as int / w == i && a1 as int % w == j);
    assert(c1 as int / w == i && c1 as int % w == j + 1);
    assert(b1 as int / w == i + 1 && b1 as int % w == j);
    assert(d1 as int / w == i + 1 && d1 as int % w == j + 1);
    assert(grid_orientation(s, a1, b1, c1) == (j - j) * (i - i) - ((j + 1) - j) * ((i + 1) - i));
    assert(grid_orientation(s, c1, b1, d1) == (j - (j + 1)) * ((i + 1) - i) - ((j + 1) - (j
        + 1)) * ((i + 1) - i));
    assert((j - j) * (i - i) - ((j + 1) - j) * ((i + 1) - i) == -1) by (nonlinear_arith);
    assert((j - (j + 1)) * ((i + 1) - i) - ((j + 1) - (j + 1)) * ((i + 1) - i) == -1)
        by (nonlinear_arith);
    let q = quad_indices(s, t, i, j);
    assert forall|m: int| 0 <= m < q.len() / 3 implies grid_orientation(
        s,
        #[trigger] q[3 * m],
        q[3 * m + 1],
        q[3 * m + 2],
    ) == -1 by {
        if i != 0 && m == 0 {
            assert(q[0] == a1 && q[1] == b1 && q[2] == c1);
        } else {
            assert(q[3 * m] == c1 && q[3 * m + 1] == b1 && q[3 * m + 2] == d1);
        }
    }
}

/// The first `c` quads are all wound the same way.
proof fn lemma_sphere_cells_winding(s: nat, t: nat, c: nat)
    requires
        s >= 1,
        t >= 2,
        c <= s * t,
        (t + 1) * (s + 1) <= u32::MAX + 1,
    ensures
        forall|m: int|
            0 <= m < sphere_cells(s, t, c).len() / 3 ==> grid_orientation(
                s,
                #[trigger] sphere_cells(s, t, c)[3 * m],
                sphere_cells(s, t, c)[3 * m + 1],
                sphere_cells(s, t, c)[3 * m + 2],
            ) == -1,
    decreases c,
{
    if c > 0 {
        let p = sphere_cells(s, t, (c - 1) as nat);
        lemma_sphere_cells_winding(s, t, (c - 1) as nat);
        lemma_sphere_cells(s, t, (c - 1) as nat);
        let i = ((c - 1) as nat) / s;
        let j = ((c - 1) as nat) % s;
        assert(i * s + j == c - 1) by (nonlinear_arith)
            requires
                i == ((c - 1) as nat) / s,
                j == ((c - 1) as nat) % s,
                s > 0,
                c >= 1,
        ;
        assert(i < t) by (nonlinear_arith)
            requires
                i * s + j == c - 1,
                c <= s * t,
                j >= 0,
                s > 0,
        ;
        assert(j < s) by (nonlinear_arith)
            requires
                j == ((c - 1) as nat) % s,
                s > 0,
        ;
        lemma_quad_winding(s, t, i, j);
        lemma_quad_properties(s, t, i, j);
        let q = quad_indices(s, t, i, j);
        let all = sphere_cells(s, t, c);
        assert(all == p + q);
        assert forall|m: int| 0 <= m < all.len() / 3 implies grid_orientation(
            s,
            #[trigger] all[3 * m],
            all[3 * m + 1],
            all[3 * m + 2],
        ) == -1 by {
            if m < p.len() / 3 {
                assert(all[3 * m] == p[3 * m]);
                assert(all[3 * m + 1] == p[3 * m + 1]);
                assert(all[3 * m + 2] == p[3 * m + 2]);
            } else {
                let m2 = m - p.len() / 3;
                assert(3 * m - p.len() == 3 * m2);
                assert(all[3 * m] == q[3 * m2]);
                assert(all[3 * m + 1] == q[3 * m2 + 1]);
                assert(all[3 * m + 2] == q[3 * m2 + 2]);
            }
        }
    }
}

/// Winding law: every triangle of a sphere is wound the same way, so that
/// back-face culling keeps all of them or none: laid out on the vertex grid
/// (row = stack line, column = sector line), each one covers half a grid
/// cell with the same orientation.
pub proof fn lemma_sphere_one_winding(sectors: u32, stacks: u32)
    requires
        sphere_vertex_count(sphere_sectors(sectors), sphere_stacks(stacks)) <= u32::MAX + 1,
    ensures
        ({
            let s = sphere_sectors(sectors);
            let idx = sphere_index_list(sectors, stacks);
            forall|m: int|
                0 <= m < idx.len() / 3 ==> grid_orientation(
                    s,
                    #[trigger] idx[3 * m],
                    idx[3 * m + 1],
                    idx[3 * m + 2],
                ) == -1
        }),
{
    let s = sphere_sectors(sectors);
    let t = sphere_stacks(stacks);
    lemma_sphere_cells_winding(s, t, s * t);
}

proof fn lemma_quad_properties(s: nat, t: nat, i: nat, j: nat)
    requires
        s >= 1,
        t >= 2,
        i < t,
        j < s,
        (t + 1) * (s + 1) <= u32::MAX + 1,
    ensures
        quad_indices(s, t, i, j).len() == (if i != 0 {
            3int
        } else {
            0
        }) + (if i != t - 1 {
            3int
        } else {
            0
        }),
        forall|k: int|
            0 <= k < quad_indices(s, t, i, j).len() ==> (#[trigger] quad_indices(s, t, i, j)[k]
                as nat) < sphere_vertex_count(s, t),
        forall|m: int|
            0 <= m < quad_indices(s, t, i, j).len() / 3 ==> {
                &&& #[trigger] quad_indices(s, t, i, j)[3 * m] != quad_indices(s, t, i, j)[3 * m + 1]
                &&& quad_indices(s, t, i, j)[3 * m] != quad_indices(s, t, i, j)[3 * m + 2]
                &&& quad_indices(s, t, i, j)[3 * m + 1] != quad_indices(s, t, i, j)[3 * m + 2]
            },
{
    assert((i + 1) * (s + 1) <= t * (s + 1)) by (nonlinear_arith)
        requires
            i + 1 <= t,
    ;
    assert((i + 1) * (s + 1) == i * (s + 1) + s + 1) by (nonlinear_arith);
    assert((t + 1) * (s + 1) == t * (s + 1) + s + 1) by (nonlinear_arith);
    let q = quad_indices(s, t, i, j);
    let k1 = i * (s + 1) + j;
    let k2 = k1 + s + 1;
    assert(k2 + 1 < (t + 1) * (s + 1));
}

/// Requests below the minimum are raised, never refused: a sphere asked for
/// with fewer than 3 sectors or 2 stacks is the one with 3 sectors or 2
/// stacks, index for index and vertex count for vertex count.
pub proof fn lemma_sphere_subdivisions_raised(sectors: u32, stacks: u32)
    ensures
        ({
            let s3: u32 = if sectors < 3 { 3 } else { sectors };
            let t2: u32 = if stacks < 2 { 2 } else { stacks };
            &&& sphere_index_list(sectors, stacks) == sphere_index_list(s3, t2)
            &&& sphere_sectors(sectors) == s3 && sphere_stacks(stacks) == t2
            &&& sphere_vertex_count(sphere_sectors(sectors), sphere_stacks(stacks))
                == sphere_vertex_count(sphere_sectors(s3), sphere_stacks(t2))
        }),
{
}

/// Sphere laws: a sphere with `s` sectors and `t` stacks has `6 s (t - 1)`
/// indices, every index names one of its `(t + 1)(s + 1)` vertices, and no
/// triangle repeats a vertex.
pub proof fn lemma_sphere_indices_laws(sectors: u32, stacks: u32)
    requires
        sphere_vertex_count(sphere_sectors(sectors), sphere_stacks(stacks)) <= u32::MAX + 1,
    ensures
        ({
            let s = sphere_sectors(sectors);
            let t = sphere_stacks(stacks);
            let idx = sphere_index_list(sectors, stacks);
            &&& idx.len() == 6 * s * (t - 1)
            &&& forall|k: int|
                0 <= k < idx.len() ==> (#[trigger] idx[k] as nat) < sphere_vertex_count(s, t)
            &&& forall|m: int|
                0 <= m < idx.len() / 3 ==> {
                    &&& #[trigger] idx[3 * m] != idx[3 * m + 1]
                    &&& idx[3 * m] != idx[3 * m + 2]
                    &&& idx[3 * m + 1] != idx[3 * m + 2]
                }
        }),
{
    let s = sphere_sectors(sectors);
    let t = sphere_stacks(stacks);
    lemma_sphere_cells(s, t, s * t);
    assert(s * t == s * (t - 1) + s) by (nonlinear_arith)
        requires
            t >= 2,
    ;
    assert(s * (t - 1) >= s) by (nonlinear_arith)
        requires
            t >= 2,
            s >= 1,
    ;
    assert(6 * (s * t) - 3 * s - 3 * (s * t - s * (t - 1)) == 6 * s * (t - 1)) by (nonlinear_arith)
        requires
            s * t == s * (t - 1) + s,
    ;
}

/// Length, range and non-degeneracy of the first `c` quads.
proof fn lemma_sphere_cells(s: nat, t: nat, c: nat)
    requires
        s >= 1,
        t >= 2,
        c <= s * t,
        (t + 1) * (s + 1) <= u32::MAX + 1,
    ensures
        sphere_cells(s, t, c).len() % 3 == 0,
        sphere_cells(s, t, c).len() == 6 * c - 3 * (if c >= s {
            s
        } else {
            c
        }) - 3 * (if c > s * (t - 1) {
            c - s * (t - 1)
        } else {
            0
        }),
        forall|k: int|
            0 <= k < sphere_cells(s, t, c).len() ==> (#[trigger] sphere_cells(s, t, c)[k] as nat)
                < sphere_vertex_count(s, t),
        forall|m: int|
            0 <= m < sphere_cells(s, t, c).len() / 3 ==> {
                &&& #[trigger] sphere_cells(s, t, c)[3 * m] != sphere_cells(s, t, c)[3 * m + 1]
                &&& sphere_cells(s, t, c)[3 * m] != sphere_cells(s, t, c)[3 * m + 2]
                &&& sphere_cells(s, t, c)[3 * m + 1] != sphere_cells(s, t, c)[3 * m + 2]
            },
    decreases c,
{
    if c > 0 {
        let p = sphere_cells(s, t, (c - 1) as nat);
        lemma_sphere_cells(s, t, (c - 1) as nat);
        let i = ((c - 1) as nat) / s;
        let j = ((c - 1) as nat) % s;
        assert(i * s + j == c - 1) by (nonlinear_arith)
            requires
                i == ((c - 1) as nat) / s,
                j == ((c - 1) as nat) % s,
                s > 0,
                c >= 1,
        ;
        assert(i < t) by (nonlinear_arith)
            requires
                i * s + j == c - 1,
                c <= s * t,
                j >= 0,
                s > 0,
        ;
        assert(j < s) by (nonlinear_arith)
            requires
                j == ((c - 1) as nat) % s,
                s > 0,
        ;
        lemma_quad_properties(s, t, i, j);
        let q = quad_indices(s, t, i, j);
        let all = sphere_cells(s, t, c);
        assert(all == p + q);
        // which rows the new quad belongs to
        assert((i != 0) == (c - 1 >= s)) by (nonlinear_arith)
            requires
                i * s + j == c - 1,
                j < s,
                s > 0,
        ;
        assert((i != t - 1) == (c - 1 < s * (t - 1))) by (nonlinear_arith)
            requires
                i * s + j == c - 1,
                j < s,
                s > 0,
                i < t,
        ;
        assert forall|k: int| 0 <= k < all.len() implies (#[trigger] all[k] as nat)
            < sphere_vertex_count(s, t) by {
            if k < p.len() {
                assert(all[k] == p[k]);
            } else {
                assert(all[k] == q[k - p.len()]);
            }
        }
        assert forall|m: int| 0 <= m < all.len() / 3 implies {
            &&& #[trigger] all[3 * m] != all[3 * m + 1]
            &&& all[3 * m] != all[3 * m + 2]
            &&& all[3 * m + 1] != all[3 * m + 2]
        } by {
            if m < p.len() / 3 {
                assert(all[3 * m] == p[3 * m]);
                assert(all[3 * m + 1] == p[3 * m + 1]);
                assert(all[3 * m + 2] == p[3 * m + 2]);
            } else {
                let m2 = m - p.len() / 3;
                assert(3 * m - p.len() == 3 * m2);
                assert(all[3 * m] == q[3 * m2]);
                assert(all[3 * m + 1] == q[3 * m2 + 1]);
                assert(all[3 * m + 2] == q[3 * m2 + 2]);
            }
        }
    }
}

// ── Brush cursor ribbons ────────────────────────────────────────────────────

/// Indices of a ring ribbon whose `2 (segments + 1)` vertices start at
/// `base`: segment `i` is the quad `b, b+1, b+2, b+3` with `b = base + 2i`,
/// split into `(b, b+1, b+2)` and `(b+1, b+3, b+2)`.
pub open spec fn ring_index_list(base: u32, segments: nat) -> Seq<u32> {
    Seq::new(
        6 * segments,
        |k: int|
            {
                let b = base + 2 * (k / 6);
                let r = k % 6;
                (if r == 0 {
                    b
                } else if r == 1 || r == 3 {
                    b + 1
                } else if r == 2 || r == 5 {
                    b + 2
                } else {
                    b + 3
                }) as u32
            },
    )
}

/// Triangle indices of a ring ribbon with `segments` segments whose
/// vertices (an inner and an outer one per angle step) start at `base`.
pub fn ring_indices(base: u32, segments: usize) -> (r: Vec<u32>)
    requires
        segments == 0 || base + 2 * segments + 1 <= u32::MAX,
    ensures
        r@ == ring_index_list(base, segments as nat),
{
    let mut out: Vec<u32> = Vec::new();
    let mut i: usize = 0;
    while i < segments
        invariant
            i <= segments,
            segments == 0 || base + 2 * segments + 1 <= u32::MAX,
            out@ == ring_index_list(base, segments as nat).take(6 * i),
        decreases segments - i,
    {
        let b = base + (i * 2) as u32;
        let ghost before = out@;
        out.push(b);
        out.push(b + 1);
        out.push(b + 2);
        out.push(b + 1);
        out.push(b + 3);
        out.push(b + 2);
        proof {
            let all = ring_index_list(base, segments as nat);
            assert forall|k: int| 6 * i <= k < 6 * i + 6 implies k / 6 == i && #[trigger] (k % 6)
                == k - 6 * i by {}
            assert(out@ =~= all.take(6 * i + 6));
        }
        i = i + 1;
    }
    assert(out@ =~= ring_index_list(base, segments as nat));
    out
}

/// Indices of a disk fan whose centre vertex is `base` and whose
/// `segments + 1` rim vertices follow it: `(base, base+1+i, base+2+i)`.
pub open spec fn disk_index_list(base: u32, segments: nat) -> Seq<u32> {
    Seq::new(
        3 * segments,
        |k: int|
            {
                let i = k / 3;
                let r = k % 3;
                (if r == 0 {
                    base as int
                } else if r == 1 {
                    base + 1 + i
                } else {
                    base + 2 + i
                }) as u32
            },
    )
}

/// Triangle indices of a filled disk (a fan around the centre vertex).
pub fn disk_indices(base: u32, segments: usize) -> (r: Vec<u32>)
    requires
        segments == 0 || base + segments + 1 <= u32::MAX,
    ensures
        r@ == disk_index_list(base, segments as nat),
{
    let mut out: Vec<u32> = Vec::new();
    let mut i: usize = 0;
    while i < segments
        invariant
            i <= segments,
            segments == 0 || base + segments + 1 <= u32::MAX,
            out@ == disk_index_list(base, segments as nat).take(3 * i),
        decreases segments - i,
    {
        let rim_curr = base + 1 + i as u32;
        let rim_next = base + 1 + (i + 1) as u32;
        out.push(base);
        out.push(rim_curr);
        out.push(rim_next);
        proof {
            let all = disk_index_list(base, segments as nat);
            assert forall|k: int| 3 * i <= k < 3 * i + 3 implies k / 3 == i && #[trigger] (k % 3)
                == k - 3 * i by {}
            assert(out@ =~= all.take(3 * i + 3));
        }
        i = i + 1;
    }
    assert(out@ =~= disk_index_list(base, segments as nat));
    out
}

/// Ribbon and disk laws: every index of a ring lies among its
/// `2 (segments + 1)` vertices and every index of a disk among its
/// `segments + 2`; rings have two triangles and disks one per segment.
pub proof fn lemma_brush_indices_in_range(base: u32, segments: nat)
    requires
        segments == 0 || base + 2 * segments + 1 <= u32::MAX,
    ensures
        ring_index_list(base, segments).len() == 6 * segments,
        disk_index_list(base, segments).len() == 3 * segments,
        forall|k: int|
            0 <= k < 6 * segments ==> base <= #[trigger] ring_index_list(base, segments)[k] < base
                + 2 * (segments + 1),
        forall|k: int|
            0 <= k < 3 * segments ==> base <= #[trigger] disk_index_list(base, segments)[k] < base
                + segments + 2,
{
    assert forall|k: int| 0 <= k < 6 * segments implies base <= #[trigger] ring_index_list(
        base,
        segments,
    )[k] < base + 2 * (segments + 1) by {
        assert(k / 6 < segments as int);
    }
    assert forall|k: int| 0 <= k < 3 * segments implies base <= #[trigger] disk_index_list(
        base,
        segments,
    )[k] < base + segments + 2 by {
        assert(k / 3 < segments as int);
    }
}

// ── Vertex buffer layouts ───────────────────────────────────────────────────

/// Format of one vertex attribute (a subset of `wgpu::VertexFormat`).
#[derive(Copy, Clone, Debug, PartialEq, Eq, Structural)]
pub enum VertexFormat {
    Float32,
    Float32x2,
    Float32x3,
}

/// Byte size of an attribute of format `f`.
pub open spec fn format_size(f: VertexFormat) -> nat {
    match f {
        VertexFormat::Float32 => 4,
        VertexFormat::Float32x2 => 8,
        VertexFormat::Float32x3 => 12,
    }
}

/// One attribute of a vertex buffer layout.
#[derive(Copy, Clone, Debug, PartialEq, Eq, Structural)]
pub struct VertexAttribute {
    pub offset: u64,
    pub shader_location: u32,
    pub format: VertexFormat,
}

/// A vertex buffer layout: the byte distance between vertices and the
/// attributes inside one vertex.
#[derive(Debug)]
pub struct VertexLayout {
    pub array_stride: u64,
    pub attributes: Vec<VertexAttribute>,
}

/// Attributes of a mesh vertex: position, normal, UV, tangent, bitangent.
pub open spec fn mesh_vertex_attributes() -> Seq<VertexAttribute> {
    seq![
        VertexAttribute { offset: 0, shader_location: 0, format: VertexFormat::Float32x3 },
        VertexAttribute { offset: 12, shader_location: 1, format: VertexFormat::Float32x3 },
        VertexAttribute { offset: 24, shader_location: 2, format: VertexFormat::Float32x2 },
        VertexAttribute { offset: 32, shader_location: 3, format: VertexFormat::Float32x3 },
        VertexAttribute { offset: 44, shader_location: 4, format: VertexFormat::Float32x3 },
    ]
}

/// Attributes of a brush ring vertex: position, kind, arc parameter.
pub open spec fn ring_vertex_attributes() -> Seq<VertexAttribute> {
    seq![
        VertexAttribute { offset: 0, shader_location: 0, format: VertexFormat::Float32x3 },
        VertexAttribute { offset: 12, shader_location: 1, format: VertexFormat::Float32 },
        VertexAttribute { offset: 16, shader_location: 2, format: VertexFormat::Float32 },
    ]
}

/// Buffer layout of a mesh vertex (56 bytes, shader locations 0 to 4).
pub fn mesh_vertex_layout() -> (r: VertexLayout)
    ensures
        r.array_stride == 56,
        r.attributes@ == mesh_vertex_attributes(),
{
    let attributes = vec![
        VertexAttribute { offset: 0, shader_location: 0, format: VertexFormat::Float32x3 },
        VertexAttribute { offset: 12, shader_location: 1, format: VertexFormat::Float32x3 },
        VertexAttribute { offset: 24, shader_location: 2, format: VertexFormat::Float32x2 },
        VertexAttribute { offset: 32, shader_location: 3, format: VertexFormat::Float32x3 },
        VertexAttribute { offset: 44, shader_location: 4, format: VertexFormat::Float32x3 },
    ];
    assert(attributes@ =~= mesh_vertex_attributes());
    VertexLayout { array_stride: 56, attributes }
}

/// Buffer layout of a brush ring vertex (32 bytes, the last 12 padding).
pub fn ring_vertex_layout() -> (r: VertexLayout)
    ensures
        r.array_stride == 32,
        r.attributes@ == ring_vertex_attributes(),
{
    let attributes = vec![
        VertexAttribute { offset: 0, shader_location: 0, format: VertexFormat::Float32x3 },
        VertexAttribute { offset: 12, shader_location: 1, format: VertexFormat::Float32 },
        VertexAttribute { offset: 16, shader_location: 2, format: VertexFormat::Float32 },
    ];
    assert(attributes@ =~= ring_vertex_attributes());
    VertexLayout { array_stride: 32, attributes }
}

/// The attributes follow one another without gaps from offset 0, take
/// shader locations `0, 1, 2, ...`, and the last ends at `used` bytes.
pub open spec fn packed(attrs: Seq<VertexAttribute>, used: nat) -> bool {
    &&& attrs.len() > 0
    &&& attrs[0].offset == 0
    &&& forall|i: int| 0 <= i < attrs.len() ==> (#[trigger] attrs[i]).shader_location == i
    &&& forall|i: int|
        0 <= i < attrs.len() - 1 ==> #[trigger] attrs[i + 1].offset == attrs[i].offset
            + format_size(attrs[i].format)
    &&& attrs.last().offset + format_size(attrs.last().format) == used
}

/// Layout laws: a mesh vertex is tightly packed, its attributes filling all
/// 56 bytes; a ring vertex's attributes are packed into its first 20 bytes.
pub proof fn lemma_vertex_layouts_packed()
    ensures
        packed(mesh_vertex_attributes(), 56),
        packed(ring_vertex_attributes(), 20),
{
}

} // verus!
