//! Chunk mesh generation.
//!
//! A chunk mesh is a square grid of `resolution * resolution` vertices.
//! Vertex `(i, j)` sits at planar position
//! `(origin_x + i * world_scale, origin_z + j * world_scale)` and at the
//! height the sampler gives there; its normal comes from two-sided height
//! differences at `DELTA` offsets, and its UV is `i / (resolution - 1)`
//! by `j / (resolution - 1)` in fixed point. Each grid cell emits two
//! triangles, `(A, B, D)` and `(A, D, C)` for corners `A = (i, j)`,
//! `B = (i+1, j)`, `C = (i, j+1)`, `D = (i+1, j+1)`, a winding whose face
//! normals agree in sign with the analytic vertex normals.
//!
//! [`mesh_complies`] pins every element of the builder's output, so
//! generation is deterministic: two meshes built from the same
//! configuration and origin are equal ([`lemma_build_deterministic`]).

use vstd::prelude::*;
use crate::config::ChunkConfig;
use crate::fixed::FP_ONE;
use crate::fixed::div_floor;
use crate::fixed::floor_div;
use crate::heightfield::height;
use crate::heightfield::height_spec;
use crate::normal::DELTA;
use crate::normal::NORMAL_ONE;
use crate::normal::NORM_SQ_TOL;
use crate::normal::normal_spec;
use crate::normal::normalize_gradient;

verus! {

/// Largest chunk world origin the builder accepts, in fixed-point world
/// units; keeps every sampled coordinate within the sampler's range.
pub const ORIGIN_LIMIT: i64 = 0x4000000000;

/// A fixed-point point or vector in world space.
#[derive(Clone, Copy, PartialEq, Eq, Structural, Debug)]
pub struct Vec3Fp {
    pub x: i64,
    pub y: i64,
    pub z: i64,
}

/// A fixed-point texture coordinate in `[0, FP_ONE]` per axis.
#[derive(Clone, Copy, PartialEq, Eq, Structural, Debug)]
pub struct UvFp {
    pub u: i64,
    pub v: i64,
}

/// One triangle, as three indices into the vertex arrays.
#[derive(Clone, Copy, PartialEq, Eq, Structural, Debug)]
pub struct TriangleIndices {
    pub a: usize,
    pub b: usize,
    pub c: usize,
}

/// The transient result of generating one chunk: parallel vertex arrays
/// and a triangulated index buffer.
#[derive(Debug)]
pub struct ChunkMesh {
    /// Vertices per edge; the arrays hold `resolution * resolution`
    /// entries.
    pub resolution: u32,
    pub positions: Vec<Vec3Fp>,
    pub normals: Vec<Vec3Fp>,
    pub uvs: Vec<UvFp>,
    pub indices: Vec<TriangleIndices>,
}

/// The structural mesh invariant: parallel arrays of `resolution^2`
/// vertices, and every triangle index in range.
pub open spec fn mesh_wf(m: ChunkMesh) -> bool {
    &&& 2 <= m.resolution
    &&& m.positions@.len() == m.resolution * m.resolution
    &&& m.normals@.len() == m.positions@.len()
    &&& m.uvs@.len() == m.positions@.len()
    &&& forall|t: int|
        0 <= t < m.indices@.len() ==> triangle_in_range(
            #[trigger] m.indices@[t],
            m.positions@.len() as int,
        )
}

/// All three indices of `t` address one of `n` vertices.
pub open spec fn triangle_in_range(t: TriangleIndices, n: int) -> bool {
    t.a < n && t.b < n && t.c < n
}

/// World-space position of grid vertex `(i, j)`.
pub open spec fn vertex_position(cfg: ChunkConfig, ox: int, oz: int, i: int, j: int) -> Vec3Fp {
    let x = ox + i * cfg.world_scale;
    let z = oz + j * cfg.world_scale;
    Vec3Fp { x: x as i64, y: height_spec(cfg, x, z) as i64, z: z as i64 }
}

/// Two-sided height difference along X at planar point `(x, z)`.
pub open spec fn gradient_x(cfg: ChunkConfig, x: int, z: int) -> int {
    height_spec(cfg, x + DELTA, z) - height_spec(cfg, x - DELTA, z)
}

/// Two-sided height difference along Z at planar point `(x, z)`.
pub open spec fn gradient_z(cfg: ChunkConfig, x: int, z: int) -> int {
    height_spec(cfg, x, z + DELTA) - height_spec(cfg, x, z - DELTA)
}

/// Unit normal of grid vertex `(i, j)`: the normalized cross product of
/// the two tangent difference vectors.
pub open spec fn vertex_normal(cfg: ChunkConfig, ox: int, oz: int, i: int, j: int) -> Vec3Fp {
    let x = ox + i * cfg.world_scale;
    let z = oz + j * cfg.world_scale;
    let n = normal_spec(gradient_x(cfg, x, z), gradient_z(cfg, x, z));
    Vec3Fp { x: n.0 as i64, y: n.1 as i64, z: n.2 as i64 }
}

/// Texture coordinate of grid vertex `(i, j)`:
/// `(i / (r - 1), j / (r - 1))` in fixed point.
pub open spec fn vertex_uv(r: int, i: int, j: int) -> UvFp {
    UvFp {
        u: div_floor(i * FP_ONE, r - 1) as i64,
        v: div_floor(j * FP_ONE, r - 1) as i64,
    }
}

/// A normal with squared length within `NORM_SQ_TOL` of
/// `NORMAL_ONE^2`, each component a fixed-point value in
/// `[-NORMAL_ONE, NORMAL_ONE]`, pointing toward negative Y.
pub open spec fn normal_bounded(n: Vec3Fp) -> bool {
    &&& NORMAL_ONE * NORMAL_ONE - NORM_SQ_TOL <= n.x * n.x + n.y * n.y + n.z * n.z
    &&& n.x * n.x + n.y * n.y + n.z * n.z <= NORMAL_ONE * NORMAL_ONE + NORM_SQ_TOL
    &&& -NORMAL_ONE <= n.x <= NORMAL_ONE
    &&& -NORMAL_ONE <= n.y <= 0
    &&& -NORMAL_ONE <= n.z <= NORMAL_ONE
}

/// Every vertex attribute equals its generation formula, heights stay
/// within the configured amplitude, and normals stay near unit length.
/// Vertex `(i, j)` is stored at index `i * r + j`.
pub open spec fn vertices_pinned(
    cfg: ChunkConfig,
    ox: int,
    oz: int,
    ps: Seq<Vec3Fp>,
    ns: Seq<Vec3Fp>,
    uvs: Seq<UvFp>,
) -> bool {
    let r = cfg.chunk_resolution as int;
    &&& forall|k: int|
        0 <= k < ps.len() ==> #[trigger] ps[k] == vertex_position(cfg, ox, oz, k / r, k % r)
    &&& forall|k: int|
        0 <= k < ps.len() ==> -cfg.max_height <= (#[trigger] ps[k]).y <= cfg.max_height
    &&& forall|k: int|
        0 <= k < ns.len() ==> #[trigger] ns[k] == vertex_normal(cfg, ox, oz, k / r, k % r)
    &&& forall|k: int| 0 <= k < ns.len() ==> normal_bounded(#[trigger] ns[k])
    &&& forall|k: int|
        0 <= k < uvs.len() ==> #[trigger] uvs[k] == vertex_uv(r, k / r, k % r)
}

/// The two triangles of grid cell `(ci, cj)`: `(A, B, D)` first, then
/// `(A, D, C)`.
pub open spec fn cell_triangle(r: int, ci: int, cj: int, second: bool) -> TriangleIndices {
    let a = ci * r + cj;
    if second {
        TriangleIndices { a: a as usize, b: (a + r + 1) as usize, c: (a + 1) as usize }
    } else {
        TriangleIndices { a: a as usize, b: (a + r) as usize, c: (a + r + 1) as usize }
    }
}

/// Every triangle equals its triangulation formula and addresses only
/// existing vertices. Triangle `2 * (ci * (r-1) + cj) + s` belongs to
/// cell `(ci, cj)`.
pub open spec fn triangles_pinned(r: int, ts: Seq<TriangleIndices>) -> bool {
    &&& forall|t: int|
        0 <= t < ts.len() ==> #[trigger] ts[t] == cell_triangle(
            r,
            (t / 2) / (r - 1),
            (t / 2) % (r - 1),
            t % 2 == 1,
        )
    &&& forall|t: int| 0 <= t < ts.len() ==> triangle_in_range(#[trigger] ts[t], r * r)
}

/// The mesh is exactly the one the generation formulas describe for this
/// configuration and chunk origin.
pub open spec fn mesh_complies(m: ChunkMesh, cfg: ChunkConfig, ox: int, oz: int) -> bool {
    let r = cfg.chunk_resolution as int;
    &&& m.resolution == cfg.chunk_resolution
    &&& m.positions@.len() == r * r
    &&& m.normals@.len() == r * r
    &&& m.uvs@.len() == r * r
    &&& m.indices@.len() == 2 * (r - 1) * (r - 1)
    &&& vertices_pinned(cfg, ox, oz, m.positions@, m.normals@, m.uvs@)
    &&& triangles_pinned(r, m.indices@)
}

/// Builds the mesh of the chunk whose world origin is
/// `(origin_x, origin_z)`.
///
/// Pure and total on validated inputs: the result is pinned element by
/// element by [`mesh_complies`], so regeneration always reproduces the
/// same mesh.
pub fn build_chunk_mesh(cfg: &ChunkConfig, origin_x: i64, origin_z: i64) -> (m: ChunkMesh)
    requires
        cfg.valid(),
        -ORIGIN_LIMIT <= origin_x <= ORIGIN_LIMIT,
        -ORIGIN_LIMIT <= origin_z <= ORIGIN_LIMIT,
    ensures
        mesh_complies(m, *cfg, origin_x as int, origin_z as int),
        mesh_wf(m),
{
    let res: usize = cfg.chunk_resolution as usize;
    let ws: i64 = cfg.world_scale;
    let ghost r: int = cfg.chunk_resolution as int;
    let ghost ox: int = origin_x as int;
    let ghost oz: int = origin_z as int;
    let mut positions: Vec<Vec3Fp> = Vec::new();
    let mut normals: Vec<Vec3Fp> = Vec::new();
    let mut uvs: Vec<UvFp> = Vec::new();
    let mut i: usize = 0;
    while i < res
        invariant
            cfg.valid(),
            res == cfg.chunk_resolution,
            ws == cfg.world_scale,
            r == cfg.chunk_resolution as int,
            ox == origin_x as int,
            oz == origin_z as int,
            -ORIGIN_LIMIT <= origin_x <= ORIGIN_LIMIT,
            -ORIGIN_LIMIT <= origin_z <= ORIGIN_LIMIT,
            i <= res,
            positions@.len() == i * r,
            normals@.len() == i * r,
            uvs@.len() == i * r,
            vertices_pinned(*cfg, ox, oz, positions@, normals@, uvs@),
        decreases res - i,
    {
        let mut j: usize = 0;
        while j < res
            invariant
                cfg.valid(),
                res == cfg.chunk_resolution,
                ws == cfg.world_scale,
                r == cfg.chunk_resolution as int,
                ox == origin_x as int,
                oz == origin_z as int,
                -ORIGIN_LIMIT <= origin_x <= ORIGIN_LIMIT,
                -ORIGIN_LIMIT <= origin_z <= ORIGIN_LIMIT,
                i < res,
                j <= res,
                positions@.len() == i * r + j,
                normals@.len() == i * r + j,
                uvs@.len() == i * r + j,
                vertices_pinned(*cfg, ox, oz, positions@, normals@, uvs@),
            decreases res - j,
        {
            proof {
                assert(0 <= (i as int) * ws <= 1023 * 0x4000000) by (nonlinear_arith)
                    requires
                        0 <= i as int <= 1023,
                        1 <= ws <= 0x4000000,
                ;
                assert(0 <= (j as int) * ws <= 1023 * 0x4000000) by (nonlinear_arith)
                    requires
                        0 <= j as int <= 1023,
                        1 <= ws <= 0x4000000,
                ;
            }
            let wx: i64 = origin_x + (i as i64) * ws;
            let wz: i64 = origin_z + (j as i64) * ws;
            let h: i64 = height(cfg, wx, wz);
            let hxp: i64 = height(cfg, wx + DELTA, wz);
            let hxm: i64 = height(cfg, wx - DELTA, wz);
            let hzp: i64 = height(cfg, wx, wz + DELTA);
            let hzm: i64 = height(cfg, wx, wz - DELTA);
            let ga: i64 = hxp - hxm;
            let gb: i64 = hzp - hzm;
            let n: (i64, i64, i64) = normalize_gradient(ga, gb);
            positions.push(Vec3Fp { x: wx, y: h, z: wz });
            normals.push(Vec3Fp { x: n.0, y: n.1, z: n.2 });
            let u: i64 = floor_div((i as i64) * FP_ONE, (res as i64) - 1);
            let v: i64 = floor_div((j as i64) * FP_ONE, (res as i64) - 1);
            uvs.push(UvFp { u, v });
            proof {
                let k = (i as int) * r + (j as int);
                vstd::arithmetic::div_mod::lemma_fundamental_div_mod_converse(
                    k,
                    r,
                    i as int,
                    j as int,
                );
            }
            j += 1;
        }
        proof {
            assert((i as int + 1) * r == (i as int) * r + r) by (nonlinear_arith);
        }
        i += 1;
    }
    proof {
        assert(positions@.len() == r * r);
    }
    let cells: usize = res - 1;
    let mut indices: Vec<TriangleIndices> = Vec::new();
    let mut ci: usize = 0;
    while ci < cells
        invariant
            cfg.valid(),
            res == cfg.chunk_resolution,
            r == cfg.chunk_resolution as int,
            cells == res - 1,
            ci <= cells,
            indices@.len() == 2 * ((ci as int) * (r - 1)),
            triangles_pinned(r, indices@),
        decreases cells - ci,
    {
        let mut cj: usize = 0;
        while cj < cells
            invariant
                cfg.valid(),
                res == cfg.chunk_resolution,
                r == cfg.chunk_resolution as int,
                cells == res - 1,
                ci < cells,
                cj <= cells,
                indices@.len() == 2 * ((ci as int) * (r - 1) + cj as int),
                triangles_pinned(r, indices@),
            decreases cells - cj,
        {
            proof {
                assert((ci as int) * res + cj + res + 1 < res * res && res * res <= 0x100000
                    && 0 <= (ci as int) * res) by (nonlinear_arith)
                    requires
                        0 <= ci as int <= res - 2,
                        0 <= cj as int <= res - 2,
                        2 <= res <= 1024,
                ;
            }
            let a: usize = ci * res + cj;
            let t0 = TriangleIndices { a, b: a + res, c: a + res + 1 };
            let t1 = TriangleIndices { a, b: a + res + 1, c: a + 1 };
            indices.push(t0);
            indices.push(t1);
            proof {
                let cell = (ci as int) * (r - 1) + (cj as int);
                vstd::arithmetic::div_mod::lemma_fundamental_div_mod_converse(
                    2 * cell,
                    2,
                    cell,
                    0,
                );
                vstd::arithmetic::div_mod::lemma_fundamental_div_mod_converse(
                    2 * cell + 1,
                    2,
                    cell,
                    1,
                );
                vstd::arithmetic::div_mod::lemma_fundamental_div_mod_converse(
                    cell,
                    r - 1,
                    ci as int,
                    cj as int,
                );
                assert((ci as int) * r + (cj as int) == a as int);
            }
            cj += 1;
        }
        proof {
            assert((ci as int + 1) * (r - 1) == (ci as int) * (r - 1) + (r - 1))
                by (nonlinear_arith);
        }
        ci += 1;
    }
    proof {
        assert(2 * ((r - 1) * (r - 1)) == 2 * (r - 1) * (r - 1)) by (nonlinear_arith);
    }
    ChunkMesh { resolution: cfg.chunk_resolution, positions, normals, uvs, indices }
}

/// Y component of `(pb - pa) x (pc - pa)`, the cross product of a
/// triangle's two edge vectors: the vertical direction of its face
/// normal under the mesh's winding.
pub open spec fn face_cross_y(pa: Vec3Fp, pb: Vec3Fp, pc: Vec3Fp) -> int {
    (pb.z - pa.z) * (pc.x - pa.x) - (pb.x - pa.x) * (pc.z - pa.z)
}

/// The winding agrees in sign with the analytic normals: every triangle
/// of a complying mesh has face cross product `-world_scale^2` in Y —
/// strictly negative, the same side the vertex normals point to.
pub proof fn lemma_winding_matches_normals(
    m: ChunkMesh,
    cfg: ChunkConfig,
    ox: int,
    oz: int,
    t: int,
)
    requires
        cfg.valid(),
        -ORIGIN_LIMIT <= ox <= ORIGIN_LIMIT,
        -ORIGIN_LIMIT <= oz <= ORIGIN_LIMIT,
        mesh_complies(m, cfg, ox, oz),
        0 <= t < m.indices@.len(),
    ensures
        face_cross_y(
            m.positions@[m.indices@[t].a as int],
            m.positions@[m.indices@[t].b as int],
            m.positions@[m.indices@[t].c as int],
        ) == -(cfg.world_scale * cfg.world_scale),
        face_cross_y(
            m.positions@[m.indices@[t].a as int],
            m.positions@[m.indices@[t].b as int],
            m.positions@[m.indices@[t].c as int],
        ) < 0,
{
    let r = cfg.chunk_resolution as int;
    let ws = cfg.world_scale as int;
    let tri = m.indices@[t];
    let cell = t / 2;
    let ci = cell / (r - 1);
    let cj = cell % (r - 1);
    vstd::arithmetic::div_mod::lemma_fundamental_div_mod(t, 2);
    vstd::arithmetic::div_mod::lemma_mod_bound(t, 2);
    vstd::arithmetic::div_mod::lemma_fundamental_div_mod(cell, r - 1);
    vstd::arithmetic::div_mod::lemma_mod_bound(cell, r - 1);
    assert(0 <= cell && 2 * cell <= t);
    assert(2 * (r - 1) * (r - 1) == 2 * ((r - 1) * (r - 1))) by (nonlinear_arith);
    assert(cell < (r - 1) * (r - 1));
    assert(0 <= ci < r - 1 && 0 <= cj < r - 1) by (nonlinear_arith)
        requires
            cell == ci * (r - 1) + cj,
            0 <= cj < r - 1,
            0 <= cell < (r - 1) * (r - 1),
            r >= 2,
    ;
    assert(tri == cell_triangle(r, ci, cj, t % 2 == 1));
    let a = ci * r + cj;
    assert(0 <= a && a + r + 1 < r * r && r * r <= 0x100000) by (nonlinear_arith)
        requires
            a == ci * r + cj,
            0 <= ci <= r - 2,
            0 <= cj <= r - 2,
            2 <= r <= 1024,
    ;
    lemma_vertex_at(m, cfg, ox, oz, ci, cj);
    lemma_vertex_at(m, cfg, ox, oz, ci + 1, cj);
    lemma_vertex_at(m, cfg, ox, oz, ci, cj + 1);
    lemma_vertex_at(m, cfg, ox, oz, ci + 1, cj + 1);
    let pa = m.positions@[a];
    assert(tri.a == a);
    if t % 2 == 1 {
        assert(tri.b == a + r + 1 && tri.c == a + 1);
    } else {
        assert(tri.b == a + r && tri.c == a + r + 1);
    }
    let pb = m.positions@[tri.b as int];
    let pc = m.positions@[tri.c as int];
    assert((ci + 1) * r + cj == a + r && (ci + 1) * r + (cj + 1) == a + r + 1 && ci * r + (cj + 1)
        == a + 1) by (nonlinear_arith)
        requires
            a == ci * r + cj,
    ;
    assert((ci + 1) * ws == ci * ws + ws && (cj + 1) * ws == cj * ws + ws) by (nonlinear_arith);
    assert(face_cross_y(pa, pb, pc) == -(ws * ws)) by (nonlinear_arith)
        requires
            face_cross_y(pa, pb, pc) == (pb.z - pa.z) * (pc.x - pa.x) - (pb.x - pa.x) * (pc.z
                - pa.z),
            (pb.x - pa.x == ws && pb.z - pa.z == 0 && pc.x - pa.x == ws && pc.z - pa.z == ws) || (
            pb.x - pa.x == ws && pb.z - pa.z == ws && pc.x - pa.x == 0 && pc.z - pa.z == ws),
    ;
    assert(ws * ws > 0) by (nonlinear_arith)
        requires
            ws > 0,
    ;
}

/// The vertex at grid point `(i, j)` of a complying mesh sits exactly at
/// `(ox + i * world_scale, oz + j * world_scale)` in the plane.
proof fn lemma_vertex_at(m: ChunkMesh, cfg: ChunkConfig, ox: int, oz: int, i: int, j: int)
    requires
        cfg.valid(),
        -ORIGIN_LIMIT <= ox <= ORIGIN_LIMIT,
        -ORIGIN_LIMIT <= oz <= ORIGIN_LIMIT,
        mesh_complies(m, cfg, ox, oz),
        0 <= i < cfg.chunk_resolution,
        0 <= j < cfg.chunk_resolution,
    ensures
        m.positions@[i * (cfg.chunk_resolution as int) + j].x == ox + i * cfg.world_scale,
        m.positions@[i * (cfg.chunk_resolution as int) + j].z == oz + j * cfg.world_scale,
{
    let r = cfg.chunk_resolution as int;
    let k = i * r + j;
    assert(0 <= k < r * r) by (nonlinear_arith)
        requires
            k == i * r + j,
            0 <= i < r,
            0 <= j < r,
    ;
    vstd::arithmetic::div_mod::lemma_fundamental_div_mod_converse(k, r, i, j);
    assert(m.positions@[k] == vertex_position(cfg, ox, oz, i, j));
    assert(0 <= i * cfg.world_scale <= 1023 * 0x4000000 && 0 <= j * cfg.world_scale <= 1023
        * 0x4000000) by (nonlinear_arith)
        requires
            0 <= i <= 1023,
            0 <= j <= 1023,
            1 <= cfg.world_scale <= 0x4000000,
    ;
}

/// Generation is deterministic: any two meshes that comply with the same
/// configuration and origin are equal, element by element.
pub proof fn lemma_build_deterministic(
    m1: ChunkMesh,
    m2: ChunkMesh,
    cfg: ChunkConfig,
    ox: int,
    oz: int,
)
    requires
        mesh_complies(m1, cfg, ox, oz),
        mesh_complies(m2, cfg, ox, oz),
    ensures
        m1.resolution == m2.resolution,
        m1.positions@ == m2.positions@,
        m1.normals@ == m2.normals@,
        m1.uvs@ == m2.uvs@,
        m1.indices@ == m2.indices@,
{
    assert(m1.positions@ =~= m2.positions@);
    assert(m1.normals@ =~= m2.normals@);
    assert(m1.uvs@ =~= m2.uvs@);
    assert(m1.indices@ =~= m2.indices@);
}

/// Every normal of a complying mesh has squared fixed-point length
/// within `NORM_SQ_TOL` of `NORMAL_ONE^2`: its world-space length is
/// `1.0` up to a relative error below `1e-4`.
pub proof fn lemma_normal_unit_length(
    m: ChunkMesh,
    cfg: ChunkConfig,
    ox: int,
    oz: int,
    k: int,
)
    requires
        mesh_complies(m, cfg, ox, oz),
        0 <= k < m.normals@.len(),
    ensures
        normal_bounded(m.normals@[k]),
        NORMAL_ONE * NORMAL_ONE - NORM_SQ_TOL
            <= m.normals@[k].x * m.normals@[k].x + m.normals@[k].y * m.normals@[k].y
                + m.normals@[k].z * m.normals@[k].z,
        m.normals@[k].x * m.normals@[k].x + m.normals@[k].y * m.normals@[k].y
            + m.normals@[k].z * m.normals@[k].z <= NORMAL_ONE * NORMAL_ONE + NORM_SQ_TOL,
{
}

} // verus!
