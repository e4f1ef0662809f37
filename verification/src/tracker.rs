//! Chunk residency tracking.
//!
//! [`TerrainState`] owns the mapping from chunk coordinate to the live
//! handles of that chunk. It is the single source of truth for "is this
//! coordinate currently loaded": a coordinate enters the mapping the tick
//! its chunk is generated and leaves it the tick the chunk is evicted.
//! The mapping is modelled as a `Map` from coordinate pairs to entries;
//! every operation states its exact effect on that model, and no
//! coordinate is ever held twice.

use vstd::prelude::*;
use crate::TerrainError;
use crate::config::ChunkConfig;
use crate::config::ChunkCoordinate;
use crate::fixed::div_ceil;
use crate::fixed::div_floor;
use crate::fixed::floor_div;
use crate::fixed::ceil_div;

verus! {

/// Largest observer coordinate, in fixed-point world units, at which
/// residency queries are made.
pub const OBSERVER_LIMIT: i64 = 0x1000000000;

/// Bound on the chunk coordinates that can be required for an observer
/// within `OBSERVER_LIMIT`.
pub const COORD_LIMIT: i64 = 0x2000000000;

/// One resident chunk: its coordinate and the opaque handles under which
/// the rendering and physics collaborators know it. The collidable
/// handle is absent for chunks whose collision geometry was degenerate.
#[derive(Clone, Copy, Debug)]
pub struct ResidentChunk {
    pub coordinate: ChunkCoordinate,
    pub renderable_handle: u64,
    pub collidable_handle: Option<u64>,
}

/// The process-wide terrain state: the immutable configuration and the
/// resident-chunk mapping.
pub struct TerrainState {
    config: ChunkConfig,
    resident: Vec<ResidentChunk>,
}

/// No two entries share a coordinate.
spec fn entries_unique(s: Seq<ResidentChunk>) -> bool {
    forall|i: int, j: int|
        0 <= i < j < s.len() ==> (#[trigger] s[i]).coordinate.model() != (
        #[trigger] s[j]).coordinate.model()
}

/// Some entry has coordinate `c`.
spec fn seq_has_entry(s: Seq<ResidentChunk>, c: (int, int)) -> bool {
    exists|i: int| 0 <= i < s.len() && (#[trigger] s[i]).coordinate.model() == c
}

/// The index of the entry with coordinate `c` (meaningful only when one
/// exists).
spec fn coord_index_of(s: Seq<ResidentChunk>, c: (int, int)) -> int {
    choose|i: int| 0 <= i < s.len() && (#[trigger] s[i]).coordinate.model() == c
}

/// The entry sequence as a coordinate-keyed map.
spec fn map_of_seq(s: Seq<ResidentChunk>) -> Map<(int, int), ResidentChunk> {
    Map::new(
        |c: (int, int)| seq_has_entry(s, c),
        |c: (int, int)| s[coord_index_of(s, c)],
    )
}

/// In a duplicate-free sequence, entry `i` is the map value of its own
/// coordinate.
proof fn lemma_map_entry(s: Seq<ResidentChunk>, i: int)
    requires
        entries_unique(s),
        0 <= i < s.len(),
    ensures
        map_of_seq(s).dom().contains(s[i].coordinate.model()),
        map_of_seq(s)[s[i].coordinate.model()] == s[i],
{
    let c = s[i].coordinate.model();
    assert(seq_has_entry(s, c));
    let j = coord_index_of(s, c);
    assert(0 <= j < s.len() && s[j].coordinate.model() == c);
    if i != j {
        assert(false);
    }
}

/// Appending an entry with a fresh coordinate inserts it into the map.
proof fn lemma_push_map(s0: Seq<ResidentChunk>, e: ResidentChunk)
    requires
        entries_unique(s0),
        !seq_has_entry(s0, e.coordinate.model()),
    ensures
        entries_unique(s0.push(e)),
        map_of_seq(s0.push(e)) == map_of_seq(s0).insert(e.coordinate.model(), e),
{
    let s1 = s0.push(e);
    let c = e.coordinate.model();
    assert forall|i: int, j: int| 0 <= i < j < s1.len() implies (#[trigger] s1[i]).coordinate.model()
        != (#[trigger] s1[j]).coordinate.model() by {
        if j == s0.len() {
            assert(s1[i] == s0[i]);
            if s1[i].coordinate.model() == c {
                assert(seq_has_entry(s0, c));
            }
        } else {
            assert(s1[i] == s0[i] && s1[j] == s0[j]);
        }
    }
    let m1 = map_of_seq(s1);
    let m2 = map_of_seq(s0).insert(c, e);
    assert forall|d: (int, int)| m1.dom().contains(d) implies m2.dom().contains(d) && m1[d]
        == m2[d] by {
        let i = coord_index_of(s1, d);
        assert(0 <= i < s1.len() && s1[i].coordinate.model() == d);
        lemma_map_entry(s1, i);
        if i == s0.len() {
            assert(s1[i] == e);
        } else {
            assert(s1[i] == s0[i]);
            lemma_map_entry(s0, i);
            if d == c {
                assert(seq_has_entry(s0, c));
            }
        }
    }
    assert forall|d: (int, int)| m2.dom().contains(d) implies m1.dom().contains(d) by {
        if d == c {
            assert(s1[s0.len() as int].coordinate.model() == d);
        } else {
            let i = coord_index_of(s0, d);
            assert(0 <= i < s0.len() && s0[i].coordinate.model() == d);
            assert(s1[i].coordinate.model() == d);
        }
    }
    assert(m1 =~= m2);
}

/// Removing entry `i` removes exactly its coordinate from the map.
proof fn lemma_remove_map(s0: Seq<ResidentChunk>, i: int)
    requires
        entries_unique(s0),
        0 <= i < s0.len(),
    ensures
        entries_unique(s0.remove(i)),
        map_of_seq(s0.remove(i)) == map_of_seq(s0).remove(s0[i].coordinate.model()),
{
    let s1 = s0.remove(i);
    let c = s0[i].coordinate.model();
    assert forall|p: int, q: int| 0 <= p < q < s1.len() implies (#[trigger] s1[p]).coordinate.model()
        != (#[trigger] s1[q]).coordinate.model() by {
        let p0 = if p < i { p } else { p + 1 };
        let q0 = if q < i { q } else { q + 1 };
        assert(s1[p] == s0[p0] && s1[q] == s0[q0]);
    }
    let m1 = map_of_seq(s1);
    let m2 = map_of_seq(s0).remove(c);
    assert forall|d: (int, int)| m1.dom().contains(d) implies m2.dom().contains(d) && m1[d]
        == m2[d] by {
        let p = coord_index_of(s1, d);
        assert(0 <= p < s1.len() && s1[p].coordinate.model() == d);
        lemma_map_entry(s1, p);
        let p0 = if p < i { p } else { p + 1 };
        assert(s1[p] == s0[p0]);
        lemma_map_entry(s0, p0);
        if d == c {
            assert(s0[p0].coordinate.model() == s0[i].coordinate.model());
            assert(false);
        }
    }
    assert forall|d: (int, int)| m2.dom().contains(d) implies m1.dom().contains(d) by {
        let p0 = coord_index_of(s0, d);
        assert(0 <= p0 < s0.len() && s0[p0].coordinate.model() == d);
        if p0 == i {
            assert(false);
        } else if p0 < i {
            assert(s1[p0].coordinate.model() == d);
        } else {
            assert(s1[p0 - 1].coordinate.model() == d);
        }
    }
    assert(m1 =~= m2);
}

impl TerrainState {
    /// The configuration every chunk is generated under, fixed at
    /// creation.
    pub closed spec fn config_spec(&self) -> ChunkConfig {
        self.config
    }

    /// The configuration every chunk is generated under.
    pub fn config(&self) -> (c: ChunkConfig)
        ensures
            c == self.config_spec(),
    {
        self.config
    }

    /// The residency model: which coordinate holds which entry.
    pub closed spec fn resident_map(&self) -> Map<(int, int), ResidentChunk> {
        map_of_seq(self.resident@)
    }

    /// The set of currently loaded coordinates.
    pub open spec fn resident_coords(&self) -> Set<(int, int)> {
        self.resident_map().dom()
    }

    /// Number of resident chunks.
    pub closed spec fn resident_len(&self) -> nat {
        self.resident@.len()
    }

    /// The tracker invariant: no coordinate is held more than once.
    pub closed spec fn wf(&self) -> bool {
        entries_unique(self.resident@)
    }

    /// Creates the terrain state for a configuration, checking it once.
    ///
    /// Returns `InvalidConfig` exactly on invalid configurations; on
    /// success the state starts with no resident chunk.
    pub fn new(config: ChunkConfig) -> (r: Result<TerrainState, TerrainError>)
        ensures
            r is Ok <==> config.valid(),
            r matches Ok(s) ==> s.wf() && s.config_spec() == config && s.resident_map()
                == Map::<(int, int), ResidentChunk>::empty() && s.resident_len() == 0,
            r is Err ==> r == Err::<TerrainState, TerrainError>(TerrainError::InvalidConfig),
    {
        match config.validate() {
            Ok(()) => {
                let s = TerrainState { config, resident: Vec::new() };
                proof {
                    assert(s.resident_map() =~= Map::<(int, int), ResidentChunk>::empty());
                }
                Ok(s)
            },
            Err(e) => Err(e),
        }
    }

    /// The index of the entry holding `(x, z)`, if any.
    fn index_of(&self, x: i64, z: i64) -> (r: Option<usize>)
        ensures
            match r {
                Some(i) => i < self.resident@.len() && self.resident@[i as int].coordinate.model()
                    == (x as int, z as int),
                None => !seq_has_entry(self.resident@, (x as int, z as int)),
            },
    {
        let mut i: usize = 0;
        while i < self.resident.len()
            invariant
                i <= self.resident@.len(),
                forall|t: int|
                    0 <= t < i ==> (#[trigger] self.resident@[t]).coordinate.model() != (
                    x as int, z as int),
            decreases self.resident@.len() - i,
        {
            let e = &self.resident[i];
            if e.coordinate.cx == x && e.coordinate.cz == z {
                return Some(i);
            }
            i += 1;
        }
        None
    }

    /// Is the chunk at `(x, z)` currently resident?
    pub fn is_chunk_loaded(&self, x: i64, z: i64) -> (r: bool)
        ensures
            r == self.resident_coords().contains((x as int, z as int)),
    {
        match self.index_of(x, z) {
            Some(i) => {
                proof {
                    assert(seq_has_entry(self.resident@, (x as int, z as int)));
                }
                true
            },
            None => false,
        }
    }

    /// Records the chunk at `(x, z)` as resident under the given
    /// handles.
    ///
    /// The coordinate must not be resident yet — inserting a loaded
    /// coordinate would be the `DuplicateChunk` programming error, which
    /// this precondition rules out.
    pub fn add_chunk(
        &mut self,
        x: i64,
        z: i64,
        renderable_handle: u64,
        collidable_handle: Option<u64>,
    )
        requires
            old(self).wf(),
            !old(self).resident_coords().contains((x as int, z as int)),
        ensures
            final(self).wf(),
            final(self).config_spec() == old(self).config_spec(),
            final(self).resident_map() == old(self).resident_map().insert(
                (x as int, z as int),
                (ResidentChunk {
                    coordinate: ChunkCoordinate { cx: x, cz: z },
                    renderable_handle,
                    collidable_handle,
                }),
            ),
            final(self).resident_len() == old(self).resident_len() + 1,
    {
        let e = ResidentChunk {
            coordinate: ChunkCoordinate { cx: x, cz: z },
            renderable_handle,
            collidable_handle,
        };
        self.add_entry(e);
    }

    /// Records a prepared resident entry. Same contract as
    /// [`TerrainState::add_chunk`], stated over the whole entry.
    pub fn add_entry(&mut self, e: ResidentChunk)
        requires
            old(self).wf(),
            !old(self).resident_coords().contains(e.coordinate.model()),
        ensures
            final(self).wf(),
            final(self).config_spec() == old(self).config_spec(),
            final(self).resident_map() == old(self).resident_map().insert(
                e.coordinate.model(),
                e,
            ),
            final(self).resident_len() == old(self).resident_len() + 1,
    {
        proof {
            lemma_push_map(self.resident@, e);
        }
        self.resident.push(e);
    }

    /// Removes and returns the resident entry at `(x, z)`, so the caller
    /// can release its handles exactly once.
    ///
    /// The coordinate must be resident — removing an unknown coordinate
    /// would be the `UnknownChunk` programming error, which this
    /// precondition rules out.
    pub fn remove_chunk(&mut self, x: i64, z: i64) -> (e: ResidentChunk)
        requires
            old(self).wf(),
            old(self).resident_coords().contains((x as int, z as int)),
        ensures
            final(self).wf(),
            final(self).config_spec() == old(self).config_spec(),
            e == old(self).resident_map()[(x as int, z as int)],
            e.coordinate.model() == (x as int, z as int),
            final(self).resident_map() == old(self).resident_map().remove((x as int, z as int)),
            final(self).resident_len() + 1 == old(self).resident_len(),
    {
        let found = self.index_of(x, z);
        match found {
            Some(i) => {
                proof {
                    lemma_map_entry(self.resident@, i as int);
                    lemma_remove_map(self.resident@, i as int);
                }
                self.resident.remove(i)
            },
            None => {
                proof {
                    assert(false);
                }
                ResidentChunk {
                    coordinate: ChunkCoordinate { cx: x, cz: z },
                    renderable_handle: 0,
                    collidable_handle: None,
                }
            },
        }
    }

    /// Number of resident chunks.
    pub fn resident_count(&self) -> (n: usize)
        ensures
            n == self.resident_len(),
    {
        self.resident.len()
    }

    /// The currently loaded coordinates, each exactly once.
    pub fn loaded_coordinates(&self) -> (out: Vec<ChunkCoordinate>)
        requires
            self.wf(),
        ensures
            out@.len() == self.resident_len(),
            coords_unique(out@),
            forall|k: int|
                0 <= k < out@.len() ==> self.resident_coords().contains(
                    (#[trigger] out@[k]).model(),
                ),
            forall|c: (int, int)|
                self.resident_coords().contains(c) ==> seq_has_coord(out@, c),
    {
        let mut out: Vec<ChunkCoordinate> = Vec::new();
        let mut i: usize = 0;
        while i < self.resident.len()
            invariant
                self.wf(),
                i <= self.resident@.len(),
                out@.len() == i,
                forall|k: int|
                    0 <= k < i ==> (#[trigger] out@[k]) == self.resident@[k].coordinate,
            decreases self.resident@.len() - i,
        {
            out.push(self.resident[i].coordinate);
            i += 1;
        }
        proof {
            assert forall|k: int| 0 <= k < out@.len() implies self.resident_coords().contains(
                (#[trigger] out@[k]).model(),
            ) by {
                lemma_map_entry(self.resident@, k);
            }
            assert forall|c: (int, int)| self.resident_coords().contains(c) implies seq_has_coord(
                out@,
                c,
            ) by {
                let t = coord_index_of(self.resident@, c);
                assert(0 <= t < self.resident@.len() && self.resident@[t].coordinate.model() == c);
                assert(out@[t].model() == c);
            }
        }
        out
    }

    /// The chunk coordinates that should be resident for an observer at
    /// `(observer_x, observer_z)`: the inclusive box from
    /// `floor((observer - view_radius) / chunk_size)` to
    /// `ceil((observer + view_radius) / chunk_size)` on both axes,
    /// recomputed fresh on every call.
    ///
    /// The result is never empty, holds no coordinate twice, and holds a
    /// coordinate exactly when it lies in the box.
    pub fn required_coordinates(&self, observer_x: i64, observer_z: i64) -> (req: Vec<
        ChunkCoordinate,
    >)
        requires
            self.config_spec().valid(),
            -OBSERVER_LIMIT <= observer_x <= OBSERVER_LIMIT,
            -OBSERVER_LIMIT <= observer_z <= OBSERVER_LIMIT,
        ensures
            req@.len() >= 1,
            req@.len() == (required_max_cx(self.config_spec(), observer_x as int)
                - required_min_cx(self.config_spec(), observer_x as int) + 1) * (
            required_max_cz(self.config_spec(), observer_z as int) - required_min_cz(
                self.config_spec(),
                observer_z as int,
            ) + 1),
            coords_unique(req@),
            forall|k: int|
                0 <= k < req@.len() ==> in_required_box(
                    self.config_spec(),
                    observer_x as int,
                    observer_z as int,
                    (#[trigger] req@[k]).model(),
                ),
            forall|c: (int, int)|
                in_required_box(self.config_spec(), observer_x as int, observer_z as int, c)
                    ==> seq_has_coord(req@, c),
    {
        let ghost cfg = self.config_spec();
        let ghost gox = observer_x as int;
        let ghost goz = observer_z as int;
        let cs: i64 = self.config.chunk_size();
        let lo_x: i64 = observer_x - self.config.view_radius;
        let hi_x: i64 = observer_x + self.config.view_radius;
        let lo_z: i64 = observer_z - self.config.view_radius;
        let hi_z: i64 = observer_z + self.config.view_radius;
        proof {
            assert(-(COORD_LIMIT * cs) <= lo_x <= COORD_LIMIT * cs && -(COORD_LIMIT * cs) <= -hi_x
                <= COORD_LIMIT * cs && -(COORD_LIMIT * cs) <= lo_z <= COORD_LIMIT * cs && -(
            COORD_LIMIT * cs) <= -hi_z <= COORD_LIMIT * cs) by (nonlinear_arith)
                requires
                    cs >= 1,
                    -COORD_LIMIT <= lo_x <= COORD_LIMIT,
                    -COORD_LIMIT <= hi_x <= COORD_LIMIT,
                    -COORD_LIMIT <= lo_z <= COORD_LIMIT,
                    -COORD_LIMIT <= hi_z <= COORD_LIMIT,
            ;
            crate::fixed::lemma_div_floor_bounded(lo_x as int, cs as int, COORD_LIMIT as int);
            crate::fixed::lemma_div_floor_bounded(-hi_x as int, cs as int, COORD_LIMIT as int);
            crate::fixed::lemma_div_floor_bounded(lo_z as int, cs as int, COORD_LIMIT as int);
            crate::fixed::lemma_div_floor_bounded(-hi_z as int, cs as int, COORD_LIMIT as int);
            crate::fixed::lemma_div_floor_le_ceil_of_larger(lo_x as int, hi_x as int, cs as int);
            crate::fixed::lemma_div_floor_le_ceil_of_larger(lo_z as int, hi_z as int, cs as int);
        }
        let min_cx: i64 = floor_div(lo_x, cs);
        let max_cx: i64 = ceil_div(hi_x, cs);
        let min_cz: i64 = floor_div(lo_z, cs);
        let max_cz: i64 = ceil_div(hi_z, cs);
        let ghost nz: int = max_cz - min_cz + 1;
        let mut req: Vec<ChunkCoordinate> = Vec::new();
        let mut cx: i64 = min_cx;
        while cx <= max_cx
            invariant
                min_cx == required_min_cx(cfg, gox),
                max_cx == required_max_cx(cfg, gox),
                min_cz == required_min_cz(cfg, goz),
                max_cz == required_max_cz(cfg, goz),
                -COORD_LIMIT <= min_cx <= max_cx <= COORD_LIMIT,
                -COORD_LIMIT <= min_cz <= max_cz <= COORD_LIMIT,
                nz == max_cz - min_cz + 1,
                min_cx <= cx <= max_cx + 1,
                req@.len() == (cx - min_cx) * nz,
                coords_unique(req@),
                forall|k: int|
                    0 <= k < req@.len() ==> in_required_box(
                        cfg,
                        gox,
                        goz,
                        (#[trigger] req@[k]).model(),
                    ) && (#[trigger] req@[k]).model().0 < cx,
                forall|c: (int, int)|
                    in_required_box(cfg, gox, goz, c) && c.0 < cx ==> seq_has_coord(req@, c),
            decreases max_cx + 1 - cx,
        {
            let mut cz: i64 = min_cz;
            while cz <= max_cz
                invariant
                    min_cx == required_min_cx(cfg, gox),
                    max_cx == required_max_cx(cfg, gox),
                    min_cz == required_min_cz(cfg, goz),
                    max_cz == required_max_cz(cfg, goz),
                    -COORD_LIMIT <= min_cx <= max_cx <= COORD_LIMIT,
                    -COORD_LIMIT <= min_cz <= max_cz <= COORD_LIMIT,
                    nz == max_cz - min_cz + 1,
                    min_cx <= cx <= max_cx,
                    min_cz <= cz <= max_cz + 1,
                    req@.len() == (cx - min_cx) * nz + (cz - min_cz),
                    coords_unique(req@),
                    forall|k: int|
                        0 <= k < req@.len() ==> in_required_box(
                            cfg,
                            gox,
                            goz,
                            (#[trigger] req@[k]).model(),
                        ) && ((#[trigger] req@[k]).model().0 < cx || ((#[trigger] req@[k]).model().0
                            == cx && (#[trigger] req@[k]).model().1 < cz)),
                    forall|c: (int, int)|
                        in_required_box(cfg, gox, goz, c) && (c.0 < cx || (c.0 == cx && c.1 < cz))
                            ==> seq_has_coord(req@, c),
                decreases max_cz + 1 - cz,
            {
                let ghost prev = req@;
                let e = ChunkCoordinate { cx, cz };
                proof {
                    lemma_push_keeps_coords(prev, e);
                }
                req.push(e);
                proof {
                    assert forall|c: (int, int)|
                        in_required_box(cfg, gox, goz, c) && (c.0 < cx || (c.0 == cx && c.1 < cz
                            + 1)) implies seq_has_coord(req@, c) by {
                        if c.0 == cx && c.1 == cz {
                            assert(c =~= e.model());
                            assert(seq_has_coord(req@, c));
                        } else {
                            assert(seq_has_coord(prev, c));
                        }
                    }
                }
                cz += 1;
            }
            proof {
                assert((cx - min_cx) * nz + nz == (cx + 1 - min_cx) * nz) by (nonlinear_arith);
            }
            cx += 1;
        }
        proof {
            assert(req@.len() == (max_cx - min_cx + 1) * nz);
            assert(req@.len() >= 1) by (nonlinear_arith)
                requires
                    req@.len() == (max_cx - min_cx + 1) * nz,
                    max_cx - min_cx + 1 >= 1,
                    nz >= 1,
            ;
        }
        req
    }

    /// The required coordinates that are not yet resident: the chunks
    /// the controller must generate this tick.
    pub fn missing(&self, required: &Vec<ChunkCoordinate>) -> (out: Vec<ChunkCoordinate>)
        requires
            self.wf(),
            coords_unique(required@),
        ensures
            coords_unique(out@),
            forall|k: int|
                0 <= k < out@.len() ==> seq_has_coord(required@, (#[trigger] out@[k]).model())
                    && !self.resident_coords().contains(out@[k].model()),
            forall|c: (int, int)|
                seq_has_coord(required@, c) && !self.resident_coords().contains(c)
                    ==> seq_has_coord(out@, c),
    {
        let mut out: Vec<ChunkCoordinate> = Vec::new();
        let mut k: usize = 0;
        while k < required.len()
            invariant
                self.wf(),
                coords_unique(required@),
                k <= required@.len(),
                coords_unique(out@),
                forall|p: int|
                    0 <= p < out@.len() ==> seq_has_coord(
                        required@.subrange(0, k as int),
                        (#[trigger] out@[p]).model(),
                    ) && !self.resident_coords().contains(out@[p].model()),
                forall|c: (int, int)|
                    seq_has_coord(required@.subrange(0, k as int), c)
                        && !self.resident_coords().contains(c) ==> seq_has_coord(out@, c),
            decreases required@.len() - k,
        {
            let c = required[k];
            let loaded = self.is_chunk_loaded(c.cx, c.cz);
            proof {
                lemma_subrange_grow(required@, k as int);
            }
            if !loaded {
                proof {
                    if seq_has_coord(out@, c.model()) {
                        let p = choose|p: int|
                            0 <= p < out@.len() && (#[trigger] out@[p]).model() == c.model();
                        let sub = required@.subrange(0, k as int);
                        let i = choose|i: int|
                            0 <= i < sub.len() && (#[trigger] sub[i]).model() == out@[p].model();
                        assert(required@[i].model() == required@[k as int].model());
                        assert(false);
                    }
                    lemma_push_keeps_coords(out@, c);
                }
                out.push(c);
            }
            k += 1;
        }
        proof {
            assert(required@.subrange(0, required@.len() as int) =~= required@);
        }
        out
    }

    /// The resident coordinates that are no longer required: the chunks
    /// the controller must evict this tick.
    pub fn stale(&self, required: &Vec<ChunkCoordinate>) -> (out: Vec<ChunkCoordinate>)
        requires
            self.wf(),
        ensures
            coords_unique(out@),
            forall|k: int|
                0 <= k < out@.len() ==> self.resident_coords().contains(
                    (#[trigger] out@[k]).model(),
                ) && !seq_has_coord(required@, out@[k].model()),
            forall|c: (int, int)|
                self.resident_coords().contains(c) && !seq_has_coord(required@, c)
                    ==> seq_has_coord(out@, c),
    {
        let mut out: Vec<ChunkCoordinate> = Vec::new();
        let mut i: usize = 0;
        while i < self.resident.len()
            invariant
                self.wf(),
                i <= self.resident@.len(),
                coords_unique(out@),
                forall|p: int|
                    0 <= p < out@.len() ==> self.resident_coords().contains(
                        (#[trigger] out@[p]).model(),
                    ) && !seq_has_coord(required@, out@[p].model()),
                forall|t: int|
                    0 <= t < i && !seq_has_coord(
                        required@,
                        (#[trigger] self.resident@[t]).coordinate.model(),
                    ) ==> seq_has_coord(out@, self.resident@[t].coordinate.model()),
                forall|p: int, t: int|
                    0 <= p < out@.len() && 0 <= t < self.resident@.len() && (
                    #[trigger] out@[p]).model() == (#[trigger] self.resident@[t]).coordinate.model()
                        ==> t < i,
            decreases self.resident@.len() - i,
        {
            let e = &self.resident[i];
            let in_required = coord_vec_contains(required, e.coordinate.cx, e.coordinate.cz);
            if !in_required {
                proof {
                    lemma_map_entry(self.resident@, i as int);
                    if seq_has_coord(out@, e.coordinate.model()) {
                        let p = choose|p: int|
                            0 <= p < out@.len() && (#[trigger] out@[p]).model()
                                == e.coordinate.model();
                        assert(out@[p].model() == self.resident@[i as int].coordinate.model());
                        assert(false);
                    }
                    lemma_push_keeps_coords(out@, e.coordinate);
                }
                out.push(e.coordinate);
            }
            i += 1;
        }
        proof {
            assert forall|c: (int, int)|
                self.resident_coords().contains(c) && !seq_has_coord(required@, c)
                    implies seq_has_coord(out@, c) by {
                let t = coord_index_of(self.resident@, c);
                assert(0 <= t < self.resident@.len() && self.resident@[t].coordinate.model() == c);
            }
        }
        out
    }
}

/// Appending a coordinate keeps every coordinate the sequence already
/// held, and adds the appended one.
proof fn lemma_push_keeps_coords(s: Seq<ChunkCoordinate>, e: ChunkCoordinate)
    ensures
        forall|c: (int, int)| seq_has_coord(s, c) ==> seq_has_coord(s.push(e), c),
        seq_has_coord(s.push(e), e.model()),
{
    assert forall|c: (int, int)| seq_has_coord(s, c) implies seq_has_coord(s.push(e), c) by {
        let i = choose|i: int| 0 <= i < s.len() && (#[trigger] s[i]).model() == c;
        assert(s.push(e)[i].model() == c);
    }
    assert(s.push(e)[s.len() as int].model() == e.model());
}

/// A freshly extended prefix holds everything the old prefix held, plus
/// the element at its end.
proof fn lemma_subrange_grow(s: Seq<ChunkCoordinate>, k: int)
    requires
        0 <= k < s.len(),
    ensures
        forall|c: (int, int)|
            seq_has_coord(s.subrange(0, k), c) ==> seq_has_coord(s.subrange(0, k + 1), c),
        forall|c: (int, int)|
            seq_has_coord(s.subrange(0, k + 1), c) ==> seq_has_coord(s.subrange(0, k), c) || s[
                k
            ].model() == c,
        seq_has_coord(s.subrange(0, k + 1), s[k].model()),
{
    assert forall|c: (int, int)| seq_has_coord(s.subrange(0, k), c) implies seq_has_coord(
        s.subrange(0, k + 1),
        c,
    ) by {
        let i = choose|i: int|
            0 <= i < s.subrange(0, k).len() && (#[trigger] s.subrange(0, k)[i]).model() == c;
        assert(s.subrange(0, k + 1)[i].model() == c);
    }
    assert forall|c: (int, int)| seq_has_coord(s.subrange(0, k + 1), c) implies seq_has_coord(
        s.subrange(0, k),
        c,
    ) || s[k].model() == c by {
        let i = choose|i: int|
            0 <= i < s.subrange(0, k + 1).len() && (#[trigger] s.subrange(0, k + 1)[i]).model()
                == c;
        if i < k {
            assert(s.subrange(0, k)[i].model() == c);
        }
    }
    assert(s.subrange(0, k + 1)[k].model() == s[k].model());
}

/// Linear scan for a coordinate in a vector.
fn coord_vec_contains(v: &Vec<ChunkCoordinate>, x: i64, z: i64) -> (r: bool)
    ensures
        r == seq_has_coord(v@, (x as int, z as int)),
{
    let mut i: usize = 0;
    while i < v.len()
        invariant
            i <= v@.len(),
            forall|t: int| 0 <= t < i ==> (#[trigger] v@[t]).model() != (x as int, z as int),
        decreases v@.len() - i,
    {
        let c = &v[i];
        if c.cx == x && c.cz == z {
            proof {
                assert(v@[i as int].model() == (x as int, z as int));
            }
            return true;
        }
        i += 1;
    }
    false
}

/// First chunk column whose footprint may intersect the view radius
/// around observer column `ox`.
pub open spec fn required_min_cx(cfg: ChunkConfig, ox: int) -> int {
    div_floor(ox - cfg.view_radius, cfg.chunk_size_spec())
}

/// Last such chunk column (inclusive).
pub open spec fn required_max_cx(cfg: ChunkConfig, ox: int) -> int {
    div_ceil(ox + cfg.view_radius, cfg.chunk_size_spec())
}

/// First chunk row whose footprint may intersect the view radius around
/// observer row `oz`.
pub open spec fn required_min_cz(cfg: ChunkConfig, oz: int) -> int {
    div_floor(oz - cfg.view_radius, cfg.chunk_size_spec())
}

/// Last such chunk row (inclusive).
pub open spec fn required_max_cz(cfg: ChunkConfig, oz: int) -> int {
    div_ceil(oz + cfg.view_radius, cfg.chunk_size_spec())
}

/// Chunk coordinate `c` lies in the inclusive box of chunks required for
/// an observer at `(ox, oz)`.
pub open spec fn in_required_box(cfg: ChunkConfig, ox: int, oz: int, c: (int, int)) -> bool {
    &&& required_min_cx(cfg, ox) <= c.0 <= required_max_cx(cfg, ox)
    &&& required_min_cz(cfg, oz) <= c.1 <= required_max_cz(cfg, oz)
}

/// Coverage: every point within the view radius of the observer lies in
/// a chunk of the required box. The box is axis-aligned and inclusive on
/// both ends, so it contains in particular the whole disc of radius
/// `view_radius` around the observer.
pub proof fn lemma_required_covers_view(cfg: ChunkConfig, ox: int, oz: int, px: int, pz: int)
    requires
        cfg.valid(),
        ox - cfg.view_radius <= px <= ox + cfg.view_radius,
        oz - cfg.view_radius <= pz <= oz + cfg.view_radius,
    ensures
        in_required_box(
            cfg,
            ox,
            oz,
            (div_floor(px, cfg.chunk_size_spec()), div_floor(pz, cfg.chunk_size_spec())),
        ),
{
    let cs = cfg.chunk_size_spec();
    crate::config::lemma_chunk_size_positive(cfg);
    crate::fixed::lemma_div_floor_monotone(ox - cfg.view_radius, px, cs);
    crate::fixed::lemma_div_floor_le_ceil_of_larger(px, ox + cfg.view_radius, cs);
    crate::fixed::lemma_div_floor_monotone(oz - cfg.view_radius, pz, cs);
    crate::fixed::lemma_div_floor_le_ceil_of_larger(pz, oz + cfg.view_radius, cs);
}

/// The world origin of every chunk in a required box stays within the
/// range the mesh builder accepts.
pub proof fn lemma_origin_in_range(cfg: ChunkConfig, ox: int, oz: int, c: (int, int))
    requires
        cfg.valid(),
        -OBSERVER_LIMIT <= ox <= OBSERVER_LIMIT,
        -OBSERVER_LIMIT <= oz <= OBSERVER_LIMIT,
        in_required_box(cfg, ox, oz, c),
    ensures
        -(crate::mesh::ORIGIN_LIMIT as int) <= c.0 * cfg.chunk_size_spec()
            <= crate::mesh::ORIGIN_LIMIT as int,
        -(crate::mesh::ORIGIN_LIMIT as int) <= c.1 * cfg.chunk_size_spec()
            <= crate::mesh::ORIGIN_LIMIT as int,
{
    let cs = cfg.chunk_size_spec();
    crate::config::lemma_chunk_size_positive(cfg);
    lemma_column_origin_in_range(cfg, ox, c.0);
    lemma_column_origin_in_range(cfg, oz, c.1);
}

/// One axis of [`lemma_origin_in_range`].
proof fn lemma_column_origin_in_range(cfg: ChunkConfig, o: int, cc: int)
    requires
        cfg.valid(),
        -OBSERVER_LIMIT <= o <= OBSERVER_LIMIT,
        div_floor(o - cfg.view_radius, cfg.chunk_size_spec()) <= cc <= div_ceil(
            o + cfg.view_radius,
            cfg.chunk_size_spec(),
        ),
    ensures
        -(crate::mesh::ORIGIN_LIMIT as int) <= cc * cfg.chunk_size_spec()
            <= crate::mesh::ORIGIN_LIMIT as int,
{
    let cs = cfg.chunk_size_spec();
    crate::config::lemma_chunk_size_positive(cfg);
    let a1 = o - cfg.view_radius;
    let a2 = o + cfg.view_radius;
    let lo = div_floor(a1, cs);
    let hi = div_ceil(a2, cs);
    vstd::arithmetic::div_mod::lemma_fundamental_div_mod(a1, cs);
    vstd::arithmetic::div_mod::lemma_mod_bound(a1, cs);
    vstd::arithmetic::div_mod::lemma_fundamental_div_mod(-a2, cs);
    vstd::arithmetic::div_mod::lemma_mod_bound(-a2, cs);
    assert(lo * cs == a1 - a1 % cs);
    assert((-a2) / cs * cs == -a2 - (-a2) % cs);
    assert(hi * cs == a2 + (-a2) % cs) by (nonlinear_arith)
        requires
            hi == -((-a2) / cs),
            (-a2) / cs * cs == -a2 - (-a2) % cs,
    ;
    assert(lo * cs <= cc * cs <= hi * cs) by (nonlinear_arith)
        requires
            lo <= cc <= hi,
            cs > 0,
    ;
}

/// No coordinate is both missing and stale for one required set: the
/// characterizations that [`TerrainState::missing`] and
/// [`TerrainState::stale`] give their outputs are contradictory on a
/// common element.
pub proof fn lemma_missing_stale_disjoint(
    resident: Set<(int, int)>,
    required: Seq<ChunkCoordinate>,
    missing_out: Seq<ChunkCoordinate>,
    stale_out: Seq<ChunkCoordinate>,
)
    requires
        forall|k: int|
            0 <= k < missing_out.len() ==> seq_has_coord(
                required,
                (#[trigger] missing_out[k]).model(),
            ) && !resident.contains(missing_out[k].model()),
        forall|k: int|
            0 <= k < stale_out.len() ==> resident.contains((#[trigger] stale_out[k]).model())
                && !seq_has_coord(required, stale_out[k].model()),
    ensures
        forall|c: (int, int)| !(seq_has_coord(missing_out, c) && seq_has_coord(stale_out, c)),
{
    assert forall|c: (int, int)| !(seq_has_coord(missing_out, c) && seq_has_coord(
        stale_out,
        c,
    )) by {
        if seq_has_coord(missing_out, c) && seq_has_coord(stale_out, c) {
            let i = choose|i: int|
                0 <= i < missing_out.len() && (#[trigger] missing_out[i]).model() == c;
            let j = choose|j: int|
                0 <= j < stale_out.len() && (#[trigger] stale_out[j]).model() == c;
            assert(!resident.contains(c) && resident.contains(c));
        }
    }
}

/// Some coordinate in the sequence equals `c`.
pub open spec fn seq_has_coord(s: Seq<ChunkCoordinate>, c: (int, int)) -> bool {
    exists|i: int| 0 <= i < s.len() && (#[trigger] s[i]).model() == c
}

/// No coordinate appears twice.
pub open spec fn coords_unique(s: Seq<ChunkCoordinate>) -> bool {
    forall|i: int, j: int|
        0 <= i < j < s.len() ==> (#[trigger] s[i]).model() != (#[trigger] s[j]).model()
}

} // verus!
