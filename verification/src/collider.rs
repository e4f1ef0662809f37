//! Collision geometry derivation.
//!
//! The physics collaborator receives a chunk's collision shape as plain
//! vertex and index buffers copied from the render mesh. A hull can only
//! be built when the mesh has at least four non-coplanar points. For a
//! heightfield grid this has an exact arithmetic test: the grid's planar
//! coordinates already span two directions, so all points lie in one
//! plane exactly when the height at `(i, j)` is the affine function fixed
//! by the three corners `(0,0)`, `(1,0)` and `(0,1)` — and any vertex
//! that breaks that equation, together with those corners, forms four
//! non-coplanar points.

use vstd::prelude::*;
use crate::TerrainError;
use crate::config::MAX_AMPLITUDE;
use crate::mesh::ChunkMesh;
use crate::mesh::TriangleIndices;
use crate::mesh::Vec3Fp;
use crate::mesh::mesh_wf;

verus! {

/// Collision shape of one chunk: the vertex and triangle buffers the
/// physics collaborator builds its static collider from. Opaque to the
/// rest of the library; it is only handed through.
pub struct ColliderGeometry {
    pub vertices: Vec<Vec3Fp>,
    pub indices: Vec<TriangleIndices>,
}

/// Every height lies within the accepted amplitude range. Meshes built
/// by the chunk builder satisfy this by construction.
pub open spec fn heights_bounded(m: ChunkMesh) -> bool {
    forall|k: int|
        0 <= k < m.positions@.len() ==> -MAX_AMPLITUDE <= (#[trigger] m.positions@[k]).y
            <= MAX_AMPLITUDE
}

/// The heights are an affine function of the grid coordinates: vertex
/// `k = i * r + j` has height `y00 + i * (y10 - y00) + j * (y01 - y00)`,
/// where `y00`, `y10`, `y01` are the heights of grid points `(0,0)`,
/// `(1,0)` and `(0,1)`. Exactly then do all vertices lie in one plane,
/// leaving fewer than four non-coplanar points.
pub open spec fn heights_affine(m: ChunkMesh) -> bool {
    let r = m.resolution as int;
    let ps = m.positions@;
    forall|k: int|
        0 <= k < ps.len() ==> (#[trigger] ps[k]).y == ps[0].y + (k / r) * (ps[r].y - ps[0].y) + (
        k % r) * (ps[1].y - ps[0].y)
}

/// Derives the collision geometry of `mesh` without mutating it.
///
/// Returns the copied buffers exactly when the mesh has four
/// non-coplanar points, and `DegenerateGeometry` exactly when the
/// heights are affine over the grid — the planar case, in which hull
/// construction is impossible and the chunk stays renderable-only.
pub fn derive_collider(mesh: &ChunkMesh) -> (r: Result<ColliderGeometry, TerrainError>)
    requires
        mesh_wf(*mesh),
        heights_bounded(*mesh),
        mesh.resolution <= crate::config::MAX_RESOLUTION,
    ensures
        match r {
            Ok(c) => {
                &&& !heights_affine(*mesh)
                &&& c.vertices@ == mesh.positions@
                &&& c.indices@ == mesh.indices@
            },
            Err(e) => {
                &&& e == TerrainError::DegenerateGeometry
                &&& heights_affine(*mesh)
            },
        },
{
    let res: usize = mesh.resolution as usize;
    let ghost r: int = mesh.resolution as int;
    let n: usize = mesh.positions.len();
    proof {
        assert(1 < res < n && n <= 0x100000) by (nonlinear_arith)
            requires
                n == res * res,
                2 <= res <= 1024,
        ;
    }
    let y00: i64 = mesh.positions[0].y;
    let dx: i64 = mesh.positions[res].y - y00;
    let dz: i64 = mesh.positions[1].y - y00;
    let mut k: usize = 0;
    while k < n
        invariant
            mesh_wf(*mesh),
            heights_bounded(*mesh),
            r == mesh.resolution as int,
            res == mesh.resolution,
            res <= 1024,
            1 < res < n <= 0x100000,
            n == mesh.positions@.len(),
            y00 == mesh.positions@[0].y,
            dx == mesh.positions@[r].y - y00,
            dz == mesh.positions@[1].y - y00,
            k <= n,
            forall|t: int|
                0 <= t < k ==> (#[trigger] mesh.positions@[t]).y == y00 + (t / r) * dx + (t % r)
                    * dz,
        decreases n - k,
    {
        let i: usize = k / res;
        let j: usize = k % res;
        proof {
            vstd::arithmetic::div_mod::lemma_fundamental_div_mod(k as int, r);
            vstd::arithmetic::div_mod::lemma_mod_bound(k as int, r);
            assert((i as int) < res) by (nonlinear_arith)
                requires
                    i as int == k as int / r,
                    r == res,
                    (k as int / r) * r + k as int % r == k as int,
                    0 <= k as int % r,
                    (k as int) < res * res,
                    res >= 2,
            ;
            assert(-1023 * 0x100000000 <= (i as int) * dx <= 1023 * 0x100000000
                && -1023 * 0x100000000 <= (j as int) * dz <= 1023 * 0x100000000)
                by (nonlinear_arith)
                requires
                    0 <= i as int <= 1023,
                    0 <= j as int <= 1023,
                    -0x100000000 <= dx <= 0x100000000,
                    -0x100000000 <= dz <= 0x100000000,
            ;
        }
        let expected: i64 = y00 + (i as i64) * dx + (j as i64) * dz;
        if mesh.positions[k].y != expected {
            let geometry = copy_buffers(mesh);
            return Ok(geometry);
        }
        k += 1;
    }
    Err(TerrainError::DegenerateGeometry)
}

/// Copies the mesh's vertex and index buffers for the physics
/// collaborator.
fn copy_buffers(mesh: &ChunkMesh) -> (c: ColliderGeometry)
    ensures
        c.vertices@ == mesh.positions@,
        c.indices@ == mesh.indices@,
{
    let mut vertices: Vec<Vec3Fp> = Vec::new();
    let mut k: usize = 0;
    while k < mesh.positions.len()
        invariant
            k <= mesh.positions@.len(),
            vertices@.len() == k,
            forall|t: int| 0 <= t < k ==> vertices@[t] == mesh.positions@[t],
        decreases mesh.positions@.len() - k,
    {
        vertices.push(mesh.positions[k]);
        k += 1;
    }
    let mut indices: Vec<TriangleIndices> = Vec::new();
    let mut t: usize = 0;
    while t < mesh.indices.len()
        invariant
            t <= mesh.indices@.len(),
            indices@.len() == t,
            forall|s: int| 0 <= s < t ==> indices@[s] == mesh.indices@[s],
        decreases mesh.indices@.len() - t,
    {
        indices.push(mesh.indices[t]);
        t += 1;
    }
    proof {
        assert(vertices@ =~= mesh.positions@);
        assert(indices@ =~= mesh.indices@);
    }
    ColliderGeometry { vertices, indices }
}

} // verus!
