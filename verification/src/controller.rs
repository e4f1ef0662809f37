//! The streaming controller's tick.
//!
//! Each tick the controller reads the observer position once, asks the
//! tracker which coordinates are required, generates a mesh and collision
//! geometry for each missing coordinate, and evicts each stale one. The
//! collaborators that draw meshes and simulate colliders live outside the
//! library; the host registers the prepared chunks with them, and then
//! commits the whole tick through [`commit_tick`], which performs all
//! removals and insertions against the tracker in one verified pass and
//! returns the evicted entries so their handles are released exactly
//! once.

use vstd::prelude::*;
use crate::collider::ColliderGeometry;
use crate::collider::derive_collider;
use crate::collider::heights_bounded;
use crate::collider::heights_affine;
use crate::config::ChunkConfig;
use crate::config::ChunkCoordinate;
use crate::mesh::ChunkMesh;
use crate::mesh::ORIGIN_LIMIT;
use crate::mesh::build_chunk_mesh;
use crate::mesh::mesh_complies;
use crate::mesh::mesh_wf;
use crate::tracker::OBSERVER_LIMIT;
use crate::tracker::ResidentChunk;
use crate::tracker::TerrainState;
use crate::tracker::coords_unique;
use crate::tracker::in_required_box;
use crate::tracker::lemma_origin_in_range;
use crate::tracker::seq_has_coord;

verus! {

/// A chunk generated this tick and not yet registered with the outside
/// collaborators: its renderable mesh and, when the geometry was not
/// degenerate, its collision shape.
pub struct PreparedChunk {
    pub coordinate: ChunkCoordinate,
    pub mesh: ChunkMesh,
    pub collider: Option<ColliderGeometry>,
}

/// Some entry has coordinate `c`.
pub open spec fn entries_have_coord(s: Seq<ResidentChunk>, c: (int, int)) -> bool {
    exists|i: int| 0 <= i < s.len() && (#[trigger] s[i]).coordinate.model() == c
}

/// No two entries share a coordinate.
pub open spec fn entry_coords_unique(s: Seq<ResidentChunk>) -> bool {
    forall|i: int, j: int|
        0 <= i < j < s.len() ==> (#[trigger] s[i]).coordinate.model() != (
        #[trigger] s[j]).coordinate.model()
}

/// Generates the mesh and collision geometry of one required chunk.
///
/// The chunk's world origin is `coordinate * chunk_size`. The mesh is
/// pinned by [`mesh_complies`]; the collider is present exactly when the
/// generated heights are not coplanar, and degenerate geometry leaves
/// the chunk renderable-only, as the per-chunk recovery policy asks.
pub fn prepare_chunk(
    cfg: &ChunkConfig,
    observer_x: i64,
    observer_z: i64,
    coordinate: ChunkCoordinate,
) -> (p: PreparedChunk)
    requires
        cfg.valid(),
        -OBSERVER_LIMIT <= observer_x <= OBSERVER_LIMIT,
        -OBSERVER_LIMIT <= observer_z <= OBSERVER_LIMIT,
        in_required_box(*cfg, observer_x as int, observer_z as int, coordinate.model()),
    ensures
        p.coordinate == coordinate,
        mesh_wf(p.mesh),
        mesh_complies(
            p.mesh,
            *cfg,
            coordinate.cx * cfg.chunk_size_spec(),
            coordinate.cz * cfg.chunk_size_spec(),
        ),
        p.collider is Some <==> !heights_affine(p.mesh),
        p.collider matches Some(c) ==> c.vertices@ == p.mesh.positions@ && c.indices@
            == p.mesh.indices@,
{
    proof {
        lemma_origin_in_range(
            *cfg,
            observer_x as int,
            observer_z as int,
            coordinate.model(),
        );
    }
    let cs: i64 = cfg.chunk_size();
    let origin_x: i64 = coordinate.cx * cs;
    let origin_z: i64 = coordinate.cz * cs;
    let mesh = build_chunk_mesh(cfg, origin_x, origin_z);
    proof {
        assert(heights_bounded(mesh));
    }
    let collider: Option<ColliderGeometry> = match derive_collider(&mesh) {
        Ok(c) => Some(c),
        Err(_) => None,
    };
    PreparedChunk { coordinate, mesh, collider }
}

/// Commits one tick against the tracker: evicts every stale coordinate
/// and records every newly registered chunk, in one pass.
///
/// Afterwards a coordinate is resident exactly when it either was
/// resident and is not stale, or is one of the new entries; entries that
/// stay are untouched; and the returned vector holds the evicted entry
/// of each stale coordinate exactly once, aligned with `stale`, so the
/// caller can release each handle exactly once.
pub fn commit_tick(
    state: &mut TerrainState,
    new_chunks: &Vec<ResidentChunk>,
    stale: &Vec<ChunkCoordinate>,
) -> (evicted: Vec<ResidentChunk>)
    requires
        old(state).wf(),
        coords_unique(stale@),
        entry_coords_unique(new_chunks@),
        forall|k: int|
            0 <= k < stale@.len() ==> old(state).resident_coords().contains(
                (#[trigger] stale@[k]).model(),
            ),
        forall|k: int|
            0 <= k < new_chunks@.len() ==> !old(state).resident_coords().contains(
                (#[trigger] new_chunks@[k]).coordinate.model(),
            ),
    ensures
        final(state).wf(),
        final(state).config_spec() == old(state).config_spec(),
        forall|c: (int, int)|
            final(state).resident_coords().contains(c) <==> ((old(state).resident_coords()
                .contains(c) && !seq_has_coord(stale@, c)) || entries_have_coord(new_chunks@, c)),
        forall|c: (int, int)|
            old(state).resident_coords().contains(c) && !seq_has_coord(stale@, c)
                ==> final(state).resident_map()[c] == old(state).resident_map()[c],
        forall|k: int|
            0 <= k < new_chunks@.len() ==> final(state).resident_map()[(
            #[trigger] new_chunks@[k]).coordinate.model()] == new_chunks@[k],
        evicted@.len() == stale@.len(),
        forall|k: int|
            0 <= k < stale@.len() ==> #[trigger] evicted@[k] == old(state).resident_map()[stale@[
                k
            ].model()] && evicted@[k].coordinate.model() == stale@[k].model(),
        final(state).resident_len() + stale@.len() == old(state).resident_len()
            + new_chunks@.len(),
{
    let ghost st0 = *state;
    let mut evicted: Vec<ResidentChunk> = Vec::new();
    let mut k: usize = 0;
    while k < stale.len()
        invariant
            state.wf(),
            state.config_spec() == st0.config_spec(),
            k <= stale@.len(),
            coords_unique(stale@),
            forall|t: int|
                0 <= t < stale@.len() ==> st0.resident_coords().contains(
                    (#[trigger] stale@[t]).model(),
                ),
            evicted@.len() == k,
            forall|t: int|
                0 <= t < k ==> #[trigger] evicted@[t] == st0.resident_map()[stale@[
                    t
                ].model()] && evicted@[t].coordinate.model() == stale@[t].model(),
            forall|c: (int, int)|
                state.resident_coords().contains(c) <==> (st0.resident_coords().contains(
                    c,
                ) && !seq_has_coord(stale@.subrange(0, k as int), c)),
            forall|c: (int, int)|
                state.resident_coords().contains(c) ==> #[trigger] state.resident_map()[c]
                    == st0.resident_map()[c],
            state.resident_len() + k == st0.resident_len(),
        decreases stale@.len() - k,
    {
        let c = stale[k];
        proof {
            if seq_has_coord(stale@.subrange(0, k as int), c.model()) {
                let sub = stale@.subrange(0, k as int);
                let i = choose|i: int| 0 <= i < sub.len() && (#[trigger] sub[i]).model()
                    == c.model();
                assert(stale@[i].model() == stale@[k as int].model());
                assert(false);
            }
            lemma_coord_subrange_grow(stale@, k as int);
        }
        let e = state.remove_chunk(c.cx, c.cz);
        evicted.push(e);
        k += 1;
    }
    proof {
        assert(stale@.subrange(0, stale@.len() as int) =~= stale@);
    }
    let mut k2: usize = 0;
    while k2 < new_chunks.len()
        invariant
            state.wf(),
            state.config_spec() == st0.config_spec(),
            k2 <= new_chunks@.len(),
            entry_coords_unique(new_chunks@),
            forall|t: int|
                0 <= t < new_chunks@.len() ==> !st0.resident_coords().contains(
                    (#[trigger] new_chunks@[t]).coordinate.model(),
                ),
            forall|c: (int, int)|
                state.resident_coords().contains(c) <==> ((st0.resident_coords().contains(
                    c,
                ) && !seq_has_coord(stale@, c)) || entries_have_coord(
                    new_chunks@.subrange(0, k2 as int),
                    c,
                )),
            forall|c: (int, int)|
                st0.resident_coords().contains(c) && !seq_has_coord(stale@, c)
                    ==> #[trigger] state.resident_map()[c] == st0.resident_map()[c],
            forall|t: int|
                0 <= t < k2 ==> state.resident_map()[(
                #[trigger] new_chunks@[t]).coordinate.model()] == new_chunks@[t],
            state.resident_len() + stale@.len() == st0.resident_len() + k2,
        decreases new_chunks@.len() - k2,
    {
        let e = new_chunks[k2];
        let ghost prev = *state;
        proof {
            if entries_have_coord(new_chunks@.subrange(0, k2 as int), e.coordinate.model()) {
                let sub = new_chunks@.subrange(0, k2 as int);
                let i = choose|i: int|
                    0 <= i < sub.len() && (#[trigger] sub[i]).coordinate.model()
                        == e.coordinate.model();
                assert(new_chunks@[i].coordinate.model() == new_chunks@[k2 as int
                ].coordinate.model());
                assert(false);
            }
            lemma_entry_subrange_grow(new_chunks@, k2 as int);
            assert(e == new_chunks@[k2 as int]);
            assert(!st0.resident_coords().contains(
                new_chunks@[k2 as int].coordinate.model(),
            ));
            assert(!entries_have_coord(
                new_chunks@.subrange(0, k2 as int),
                e.coordinate.model(),
            ));
            assert(state.resident_coords().contains(e.coordinate.model()) <==> ((
            st0.resident_coords().contains(e.coordinate.model()) && !seq_has_coord(
                stale@,
                e.coordinate.model(),
            )) || entries_have_coord(
                new_chunks@.subrange(0, k2 as int),
                e.coordinate.model(),
            )));
            assert(!prev.resident_coords().contains(e.coordinate.model()));
        }
        state.add_entry(e);
        proof {
            assert forall|c: (int, int)|
                state.resident_coords().contains(c) <==> ((st0.resident_coords().contains(
                    c,
                ) && !seq_has_coord(stale@, c)) || entries_have_coord(
                    new_chunks@.subrange(0, k2 as int + 1),
                    c,
                )) by {
                assert(state.resident_map() == prev.resident_map().insert(
                    e.coordinate.model(),
                    e,
                ));
                assert(prev.resident_coords().contains(c) <==> ((
                st0.resident_coords().contains(c) && !seq_has_coord(stale@, c))
                    || entries_have_coord(new_chunks@.subrange(0, k2 as int), c)));
                assert(state.resident_coords().contains(c) <==> (prev.resident_coords().contains(
                    c,
                ) || c == e.coordinate.model()));
            }
            assert forall|t: int| 0 <= t < k2 as int + 1 implies state.resident_map()[(
            #[trigger] new_chunks@[t]).coordinate.model()] == new_chunks@[t] by {
                if t < k2 as int {
                    assert(new_chunks@[t].coordinate.model() != e.coordinate.model());
                    assert(state.resident_map()[new_chunks@[t].coordinate.model()]
                        == prev.resident_map()[new_chunks@[t].coordinate.model()]);
                }
            }
            assert forall|c: (int, int)|
                st0.resident_coords().contains(c) && !seq_has_coord(stale@, c)
                    implies state.resident_map()[c] == st0.resident_map()[c] by {
                assert(c != e.coordinate.model());
            }
        }
        k2 += 1;
    }
    proof {
        assert(new_chunks@.subrange(0, new_chunks@.len() as int) =~= new_chunks@);
    }
    evicted
}

/// Eviction completeness: when the required set is disjoint from the
/// resident set, the missing coordinates are exactly the required ones
/// and the stale coordinates are exactly the resident ones — so one
/// pass of [`commit_tick`] leaves precisely the newly generated chunks
/// resident, every previous chunk having been returned for release
/// once.
///
/// The hypotheses are the characterizations that
/// [`TerrainState::missing`] and [`TerrainState::stale`] give their
/// outputs.
pub proof fn lemma_eviction_completeness(
    resident: Set<(int, int)>,
    required: Seq<ChunkCoordinate>,
    missing_out: Seq<ChunkCoordinate>,
    stale_out: Seq<ChunkCoordinate>,
)
    requires
        forall|k: int|
            0 <= k < required.len() ==> !resident.contains((#[trigger] required[k]).model()),
        forall|k: int|
            0 <= k < missing_out.len() ==> seq_has_coord(
                required,
                (#[trigger] missing_out[k]).model(),
            ) && !resident.contains(missing_out[k].model()),
        forall|c: (int, int)|
            seq_has_coord(required, c) && !resident.contains(c) ==> seq_has_coord(missing_out, c),
        forall|k: int|
            0 <= k < stale_out.len() ==> resident.contains((#[trigger] stale_out[k]).model())
                && !seq_has_coord(required, stale_out[k].model()),
        forall|c: (int, int)|
            resident.contains(c) && !seq_has_coord(required, c) ==> seq_has_coord(stale_out, c),
    ensures
        forall|c: (int, int)| seq_has_coord(missing_out, c) <==> seq_has_coord(required, c),
        forall|c: (int, int)| seq_has_coord(stale_out, c) <==> resident.contains(c),
{
    assert forall|c: (int, int)| seq_has_coord(missing_out, c) <==> seq_has_coord(
        required,
        c,
    ) by {
        if seq_has_coord(required, c) {
            let i = choose|i: int| 0 <= i < required.len() && (#[trigger] required[i]).model()
                == c;
            assert(!resident.contains(c));
        }
        if seq_has_coord(missing_out, c) {
            let i = choose|i: int|
                0 <= i < missing_out.len() && (#[trigger] missing_out[i]).model() == c;
        }
    }
    assert forall|c: (int, int)| seq_has_coord(stale_out, c) <==> resident.contains(c) by {
        if resident.contains(c) {
            if seq_has_coord(required, c) {
                let i = choose|i: int| 0 <= i < required.len() && (#[trigger] required[i]).model()
                    == c;
                assert(false);
            }
        }
        if seq_has_coord(stale_out, c) {
            let i = choose|i: int|
                0 <= i < stale_out.len() && (#[trigger] stale_out[i]).model() == c;
        }
    }
}

/// One full turnover: when the required set is disjoint from the
/// resident set, a tick that generates the missing coordinates and
/// commits them while evicting the stale ones leaves exactly the
/// required coordinates resident.
///
/// The hypotheses are the characterizations established by
/// [`TerrainState::missing`], [`TerrainState::stale`] and
/// [`commit_tick`], with `new_entries` the chunks registered for the
/// missing coordinates.
pub proof fn lemma_full_turnover(
    resident: Set<(int, int)>,
    required: Seq<ChunkCoordinate>,
    missing_out: Seq<ChunkCoordinate>,
    stale_out: Seq<ChunkCoordinate>,
    new_entries: Seq<ResidentChunk>,
    final_resident: Set<(int, int)>,
)
    requires
        forall|k: int|
            0 <= k < required.len() ==> !resident.contains((#[trigger] required[k]).model()),
        forall|k: int|
            0 <= k < missing_out.len() ==> seq_has_coord(
                required,
                (#[trigger] missing_out[k]).model(),
            ) && !resident.contains(missing_out[k].model()),
        forall|c: (int, int)|
            seq_has_coord(required, c) && !resident.contains(c) ==> seq_has_coord(missing_out, c),
        forall|k: int|
            0 <= k < stale_out.len() ==> resident.contains((#[trigger] stale_out[k]).model())
                && !seq_has_coord(required, stale_out[k].model()),
        forall|c: (int, int)|
            resident.contains(c) && !seq_has_coord(required, c) ==> seq_has_coord(stale_out, c),
        forall|c: (int, int)|
            entries_have_coord(new_entries, c) <==> seq_has_coord(missing_out, c),
        forall|c: (int, int)|
            final_resident.contains(c) <==> ((resident.contains(c) && !seq_has_coord(
                stale_out,
                c,
            )) || entries_have_coord(new_entries, c)),
    ensures
        forall|c: (int, int)| final_resident.contains(c) <==> seq_has_coord(required, c),
{
    lemma_eviction_completeness(resident, required, missing_out, stale_out);
}

/// Appending to a coordinate prefix only adds the appended coordinate.
proof fn lemma_coord_subrange_grow(s: Seq<ChunkCoordinate>, k: int)
    requires
        0 <= k < s.len(),
    ensures
        forall|c: (int, int)|
            seq_has_coord(s.subrange(0, k + 1), c) <==> (seq_has_coord(s.subrange(0, k), c) || s[
                k
            ].model() == c),
{
    assert forall|c: (int, int)|
        seq_has_coord(s.subrange(0, k + 1), c) <==> (seq_has_coord(s.subrange(0, k), c) || s[
            k
        ].model() == c) by {
        if seq_has_coord(s.subrange(0, k + 1), c) {
            let sub = s.subrange(0, k + 1);
            let i = choose|i: int| 0 <= i < sub.len() && (#[trigger] sub[i]).model() == c;
            if i < k {
                assert(s.subrange(0, k)[i].model() == c);
            }
        }
        if seq_has_coord(s.subrange(0, k), c) {
            let sub = s.subrange(0, k);
            let i = choose|i: int| 0 <= i < sub.len() && (#[trigger] sub[i]).model() == c;
            assert(s.subrange(0, k + 1)[i].model() == c);
        }
        if s[k].model() == c {
            assert(s.subrange(0, k + 1)[k].model() == c);
        }
    }
}

/// Appending to an entry prefix only adds the appended entry's
/// coordinate.
proof fn lemma_entry_subrange_grow(s: Seq<ResidentChunk>, k: int)
    requires
        0 <= k < s.len(),
    ensures
        forall|c: (int, int)|
            entries_have_coord(s.subrange(0, k + 1), c) <==> (entries_have_coord(
                s.subrange(0, k),
                c,
            ) || s[k].coordinate.model() == c),
{
    assert forall|c: (int, int)|
        entries_have_coord(s.subrange(0, k + 1), c) <==> (entries_have_coord(s.subrange(0, k), c)
            || s[k].coordinate.model() == c) by {
        if entries_have_coord(s.subrange(0, k + 1), c) {
            let sub = s.subrange(0, k + 1);
            let i = choose|i: int| 0 <= i < sub.len() && (#[trigger] sub[i]).coordinate.model()
                == c;
            if i < k {
                assert(s.subrange(0, k)[i].coordinate.model() == c);
            }
        }
        if entries_have_coord(s.subrange(0, k), c) {
            let sub = s.subrange(0, k);
            let i = choose|i: int| 0 <= i < sub.len() && (#[trigger] sub[i]).coordinate.model()
                == c;
            assert(s.subrange(0, k + 1)[i].coordinate.model() == c);
        }
        if s[k].coordinate.model() == c {
            assert(s.subrange(0, k + 1)[k].coordinate.model() == c);
        }
    }
}

} // verus!
