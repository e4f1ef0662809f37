//! Mesh generation, normals, heightfield and collider behaviour.

use terrain_stream::collider::derive_collider;
use terrain_stream::config::{ChunkConfig, ChunkCoordinate};
use terrain_stream::controller::prepare_chunk;
use terrain_stream::fixed::FP_ONE;
use terrain_stream::heightfield::height;
use terrain_stream::mesh::build_chunk_mesh;
use terrain_stream::normal::NORMAL_ONE;
use terrain_stream::TerrainError;

fn hilly_config() -> ChunkConfig {
    ChunkConfig {
        chunk_resolution: 4,
        world_scale: FP_ONE,
        view_radius: 3 * FP_ONE,
        max_height: 15 * FP_ONE,
        noise_seed: 1337,
        noise_frequency: FP_ONE / 100,
    }
}

fn flat_config() -> ChunkConfig {
    let mut cfg = hilly_config();
    cfg.max_height = 0;
    cfg
}

#[test]
fn height_is_deterministic() {
    let cfg = hilly_config();
    for (x, z) in [(0, 0), (123456, -98765), (40 * FP_ONE, 7 * FP_ONE)] {
        assert_eq!(height(&cfg, x, z), height(&cfg, x, z));
    }
}

#[test]
fn height_stays_within_amplitude() {
    let cfg = hilly_config();
    let mut x = -200 * FP_ONE;
    while x <= 200 * FP_ONE {
        let h = height(&cfg, x, 17 * FP_ONE + x / 3);
        assert!(h >= -cfg.max_height && h <= cfg.max_height);
        x += 13 * FP_ONE + 331;
    }
}

#[test]
fn height_depends_on_seed() {
    let cfg_a = hilly_config();
    let mut cfg_b = hilly_config();
    cfg_b.noise_seed = 42;
    let mut differs = false;
    let mut x = 0;
    while x < 100 * FP_ONE {
        if height(&cfg_a, x, 0) != height(&cfg_b, x, 0) {
            differs = true;
        }
        x += 7 * FP_ONE;
    }
    assert!(differs);
}

#[test]
fn mesh_is_deterministic() {
    let cfg = hilly_config();
    let a = build_chunk_mesh(&cfg, 5 * FP_ONE, -9 * FP_ONE);
    let b = build_chunk_mesh(&cfg, 5 * FP_ONE, -9 * FP_ONE);
    assert_eq!(a.positions, b.positions);
    assert_eq!(a.normals, b.normals);
    assert_eq!(a.uvs, b.uvs);
    assert_eq!(a.indices, b.indices);
}

#[test]
fn mesh_has_parallel_arrays_and_valid_indices() {
    let cfg = hilly_config();
    let m = build_chunk_mesh(&cfg, 0, 0);
    let n = (cfg.chunk_resolution * cfg.chunk_resolution) as usize;
    assert_eq!(m.positions.len(), n);
    assert_eq!(m.normals.len(), n);
    assert_eq!(m.uvs.len(), n);
    assert_eq!(m.indices.len(), 2 * 3 * 3);
    for t in &m.indices {
        assert!(t.a < n && t.b < n && t.c < n);
    }
}

#[test]
fn mesh_positions_follow_the_grid() {
    let cfg = hilly_config();
    let (ox, oz) = (11 * FP_ONE, -4 * FP_ONE);
    let m = build_chunk_mesh(&cfg, ox, oz);
    let r = cfg.chunk_resolution as usize;
    for i in 0..r {
        for j in 0..r {
            let p = &m.positions[i * r + j];
            let x = ox + (i as i64) * cfg.world_scale;
            let z = oz + (j as i64) * cfg.world_scale;
            assert_eq!(p.x, x);
            assert_eq!(p.z, z);
            assert_eq!(p.y, height(&cfg, x, z));
        }
    }
}

#[test]
fn mesh_uvs_span_the_unit_square() {
    let mut cfg = hilly_config();
    cfg.chunk_resolution = 2;
    let m = build_chunk_mesh(&cfg, 0, 0);
    // Vertex (i, j) has uv (i, j) / (resolution - 1) in fixed point.
    assert_eq!((m.uvs[0].u, m.uvs[0].v), (0, 0));
    assert_eq!((m.uvs[1].u, m.uvs[1].v), (0, FP_ONE));
    assert_eq!((m.uvs[2].u, m.uvs[2].v), (FP_ONE, 0));
    assert_eq!((m.uvs[3].u, m.uvs[3].v), (FP_ONE, FP_ONE));
}

#[test]
fn mesh_triangulation_is_fixed() {
    let mut cfg = hilly_config();
    cfg.chunk_resolution = 2;
    let m = build_chunk_mesh(&cfg, 0, 0);
    // One cell: triangles (A, B, D) and (A, D, C) for A=0, B=2, C=1, D=3.
    assert_eq!(m.indices.len(), 2);
    assert_eq!((m.indices[0].a, m.indices[0].b, m.indices[0].c), (0, 2, 3));
    assert_eq!((m.indices[1].a, m.indices[1].b, m.indices[1].c), (0, 3, 1));
}

#[test]
fn normals_have_unit_length() {
    let cfg = hilly_config();
    let m = build_chunk_mesh(&cfg, -37 * FP_ONE, 52 * FP_ONE);
    for n in &m.normals {
        let x = n.x as f64 / NORMAL_ONE as f64;
        let y = n.y as f64 / NORMAL_ONE as f64;
        let z = n.z as f64 / NORMAL_ONE as f64;
        let len = (x * x + y * y + z * z).sqrt();
        assert!((len - 1.0).abs() < 1e-4, "normal length {len}");
    }
}

#[test]
fn triangle_winding_faces_the_normal_side() {
    // The face normals computed from the index buffer point toward
    // negative Y, the same side as the analytic vertex normals.
    let cfg = hilly_config();
    let m = build_chunk_mesh(&cfg, 9 * FP_ONE, -6 * FP_ONE);
    for t in &m.indices {
        let pa = &m.positions[t.a];
        let pb = &m.positions[t.b];
        let pc = &m.positions[t.c];
        let y = (pb.z - pa.z) as i128 * (pc.x - pa.x) as i128
            - (pb.x - pa.x) as i128 * (pc.z - pa.z) as i128;
        assert!(y < 0);
    }
}

#[test]
fn flat_terrain_has_axis_normals() {
    let cfg = flat_config();
    let m = build_chunk_mesh(&cfg, 0, 0);
    for n in &m.normals {
        assert_eq!((n.x, n.y, n.z), (0, -NORMAL_ONE, 0));
    }
}

#[test]
fn flat_mesh_is_degenerate_for_collision() {
    let cfg = flat_config();
    let m = build_chunk_mesh(&cfg, 0, 0);
    assert!(matches!(
        derive_collider(&m),
        Err(TerrainError::DegenerateGeometry)
    ));
}

#[test]
fn hilly_mesh_yields_collision_buffers() {
    let cfg = hilly_config();
    let m = build_chunk_mesh(&cfg, 3 * FP_ONE, 8 * FP_ONE);
    let c = derive_collider(&m).unwrap();
    assert_eq!(c.vertices.len(), m.positions.len());
    assert_eq!(c.indices.len(), m.indices.len());
    for (a, b) in c.vertices.iter().zip(m.positions.iter()) {
        assert_eq!((a.x, a.y, a.z), (b.x, b.y, b.z));
    }
}

#[test]
fn prepared_chunk_sits_at_its_origin() {
    let cfg = hilly_config();
    let coordinate = ChunkCoordinate { cx: 1, cz: -1 };
    let p = prepare_chunk(&cfg, 0, 0, coordinate);
    assert_eq!(p.coordinate, coordinate);
    let cs = 4 * FP_ONE;
    assert_eq!(p.mesh.positions[0].x, cs);
    assert_eq!(p.mesh.positions[0].z, -cs);
    // A hilly chunk carries collision geometry.
    assert!(p.collider.is_some());
}

#[test]
fn degenerate_chunk_stays_renderable_only() {
    let cfg = flat_config();
    let p = prepare_chunk(&cfg, 0, 0, ChunkCoordinate { cx: 0, cz: 0 });
    assert!(p.collider.is_none());
    assert_eq!(p.mesh.positions.len(), 16);
}
