//! Residency-tracker and streaming-controller behaviour.

use terrain_stream::config::{ChunkConfig, ChunkCoordinate};
use terrain_stream::controller::commit_tick;
use terrain_stream::fixed::FP_ONE;
use terrain_stream::tracker::{ResidentChunk, TerrainState};
use terrain_stream::TerrainError;

fn small_config() -> ChunkConfig {
    ChunkConfig {
        chunk_resolution: 4,
        world_scale: FP_ONE,
        view_radius: 3 * FP_ONE,
        max_height: 15 * FP_ONE,
        noise_seed: 1337,
        noise_frequency: FP_ONE / 100,
    }
}

fn contains_coord(v: &[ChunkCoordinate], cx: i64, cz: i64) -> bool {
    v.iter().any(|c| c.cx == cx && c.cz == cz)
}

#[test]
fn validate_accepts_small_config() {
    assert!(small_config().validate().is_ok());
}

#[test]
fn validate_rejects_resolution_below_two() {
    let mut cfg = small_config();
    cfg.chunk_resolution = 1;
    assert_eq!(cfg.validate(), Err(TerrainError::InvalidConfig));
}

#[test]
fn validate_rejects_nonpositive_scale() {
    let mut cfg = small_config();
    cfg.world_scale = 0;
    assert_eq!(cfg.validate(), Err(TerrainError::InvalidConfig));
}

#[test]
fn validate_rejects_nonpositive_radius() {
    let mut cfg = small_config();
    cfg.view_radius = 0;
    assert_eq!(cfg.validate(), Err(TerrainError::InvalidConfig));
}

#[test]
fn validate_rejects_nonpositive_frequency() {
    let mut cfg = small_config();
    cfg.noise_frequency = 0;
    assert_eq!(cfg.validate(), Err(TerrainError::InvalidConfig));
}

#[test]
fn new_rejects_invalid_config() {
    let mut cfg = small_config();
    cfg.chunk_resolution = 0;
    assert!(matches!(
        TerrainState::new(cfg),
        Err(TerrainError::InvalidConfig)
    ));
}

#[test]
fn required_box_at_origin_is_three_by_three() {
    // chunk_size = 4, min = floor(-3/4) = -1, max = ceil(3/4) = 1.
    let state = TerrainState::new(small_config()).unwrap();
    let req = state.required_coordinates(0, 0);
    assert_eq!(req.len(), 9);
    for cx in -1..=1 {
        for cz in -1..=1 {
            assert!(contains_coord(&req, cx, cz));
        }
    }
}

#[test]
fn required_box_has_no_duplicates() {
    let state = TerrainState::new(small_config()).unwrap();
    let req = state.required_coordinates(7 * FP_ONE, -13 * FP_ONE);
    for a in 0..req.len() {
        for b in (a + 1)..req.len() {
            assert!(req[a] != req[b]);
        }
    }
}

#[test]
fn required_box_is_never_empty() {
    let state = TerrainState::new(small_config()).unwrap();
    assert!(!state.required_coordinates(123456789, -987654321).is_empty());
}

#[test]
fn required_box_covers_view_disc() {
    // Every point within view_radius of the observer falls in a chunk of
    // the returned box.
    let state = TerrainState::new(small_config()).unwrap();
    let (ox, oz) = (5 * FP_ONE + 1234, -2 * FP_ONE + 777);
    let req = state.required_coordinates(ox, oz);
    let cs = 4 * FP_ONE;
    let r = 3 * FP_ONE;
    for dx in [-r, -r / 2, 0, r / 2, r] {
        for dz in [-r, -r / 2, 0, r / 2, r] {
            let px = ox + dx;
            let pz = oz + dz;
            let cx = px.div_euclid(cs);
            let cz = pz.div_euclid(cs);
            assert!(contains_coord(&req, cx, cz));
        }
    }
}

#[test]
fn add_and_remove_chunk_round_trip() {
    let mut state = TerrainState::new(small_config()).unwrap();
    assert!(!state.is_chunk_loaded(2, -5));
    state.add_chunk(2, -5, 41, Some(42));
    assert!(state.is_chunk_loaded(2, -5));
    assert_eq!(state.resident_count(), 1);
    let e = state.remove_chunk(2, -5);
    assert_eq!(e.coordinate, ChunkCoordinate { cx: 2, cz: -5 });
    assert_eq!(e.renderable_handle, 41);
    assert_eq!(e.collidable_handle, Some(42));
    assert!(!state.is_chunk_loaded(2, -5));
    assert_eq!(state.resident_count(), 0);
}

#[test]
fn missing_and_stale_partition_the_work() {
    let mut state = TerrainState::new(small_config()).unwrap();
    // Load a column that will stay and one that will not.
    state.add_chunk(0, 0, 1, None);
    state.add_chunk(50, 50, 2, None);
    let req = state.required_coordinates(0, 0);
    let missing = state.missing(&req);
    let stale = state.stale(&req);
    // (0, 0) is required and loaded: in neither set.
    assert!(!contains_coord(&missing, 0, 0));
    assert!(!contains_coord(&stale, 0, 0));
    // (50, 50) is loaded but not required: stale only.
    assert!(contains_coord(&stale, 50, 50));
    assert_eq!(stale.len(), 1);
    // The other eight required coordinates are missing.
    assert_eq!(missing.len(), 8);
    for m in &missing {
        assert!(contains_coord(&req, m.cx, m.cz));
        assert!(!state.is_chunk_loaded(m.cx, m.cz));
        assert!(!contains_coord(&stale, m.cx, m.cz));
    }
}

#[test]
fn resident_holds_no_coordinate_twice() {
    let mut state = TerrainState::new(small_config()).unwrap();
    state.add_chunk(1, 1, 10, None);
    state.add_chunk(1, 2, 11, None);
    state.add_chunk(-3, 1, 12, None);
    let coords = state.loaded_coordinates();
    assert_eq!(coords.len(), 3);
    for a in 0..coords.len() {
        for b in (a + 1)..coords.len() {
            assert!(coords[a] != coords[b]);
        }
    }
}

#[test]
fn commit_tick_inserts_and_evicts() {
    let mut state = TerrainState::new(small_config()).unwrap();
    state.add_chunk(9, 9, 77, None);
    let new_chunks = vec![ResidentChunk {
        coordinate: ChunkCoordinate { cx: 0, cz: 0 },
        renderable_handle: 5,
        collidable_handle: Some(6),
    }];
    let stale = vec![ChunkCoordinate { cx: 9, cz: 9 }];
    let evicted = commit_tick(&mut state, &new_chunks, &stale);
    assert_eq!(evicted.len(), 1);
    assert_eq!(evicted[0].renderable_handle, 77);
    assert_eq!(evicted[0].coordinate, ChunkCoordinate { cx: 9, cz: 9 });
    assert!(state.is_chunk_loaded(0, 0));
    assert!(!state.is_chunk_loaded(9, 9));
    assert_eq!(state.resident_count(), 1);
}

#[test]
fn teardown_evicts_every_chunk() {
    // At shutdown every resident chunk is released exactly once: evict
    // with the full resident set as stale and nothing new.
    let mut state = TerrainState::new(small_config()).unwrap();
    state.add_chunk(0, 0, 1, Some(2));
    state.add_chunk(1, 0, 3, None);
    state.add_chunk(0, 1, 4, Some(5));
    let all = state.loaded_coordinates();
    let none: Vec<ResidentChunk> = Vec::new();
    let evicted = commit_tick(&mut state, &none, &all);
    assert_eq!(evicted.len(), 3);
    assert_eq!(state.resident_count(), 0);
    let mut handles: Vec<u64> = Vec::new();
    for e in &evicted {
        handles.push(e.renderable_handle);
        if let Some(c) = e.collidable_handle {
            handles.push(c);
        }
    }
    handles.sort();
    assert_eq!(handles, vec![1, 2, 3, 4, 5]);
}

#[test]
fn long_jump_replaces_every_chunk_exactly_once() {
    // Observer at (0,0): the 3x3 block (-1,-1)..(1,1). Moving to
    // (100,0): chunk_size = 4, so columns 24..26, disjoint from the old
    // set; all nine originals must be evicted and nine new ones
    // inserted, none twice.
    let mut state = TerrainState::new(small_config()).unwrap();

    let req0 = state.required_coordinates(0, 0);
    let missing0 = state.missing(&req0);
    assert_eq!(missing0.len(), 9);
    let mut handle: u64 = 0;
    let mut new0: Vec<ResidentChunk> = Vec::new();
    for c in &missing0 {
        handle += 1;
        new0.push(ResidentChunk {
            coordinate: *c,
            renderable_handle: handle,
            collidable_handle: None,
        });
    }
    let stale0 = state.stale(&req0);
    assert!(stale0.is_empty());
    let evicted0 = commit_tick(&mut state, &new0, &stale0);
    assert!(evicted0.is_empty());
    assert_eq!(state.resident_count(), 9);

    let req1 = state.required_coordinates(100 * FP_ONE, 0);
    assert_eq!(req1.len(), 9);
    for c in &req1 {
        assert!((24..=26).contains(&c.cx));
        assert!((-1..=1).contains(&c.cz));
        assert!(!contains_coord(&req0, c.cx, c.cz));
    }
    let missing1 = state.missing(&req1);
    let stale1 = state.stale(&req1);
    assert_eq!(missing1.len(), 9);
    assert_eq!(stale1.len(), 9);
    let mut new1: Vec<ResidentChunk> = Vec::new();
    for c in &missing1 {
        handle += 1;
        new1.push(ResidentChunk {
            coordinate: *c,
            renderable_handle: handle,
            collidable_handle: None,
        });
    }
    let evicted1 = commit_tick(&mut state, &new1, &stale1);

    // Every original chunk was released exactly once.
    assert_eq!(evicted1.len(), 9);
    let mut released: Vec<u64> = evicted1.iter().map(|e| e.renderable_handle).collect();
    released.sort();
    let expected: Vec<u64> = (1..=9).collect();
    assert_eq!(released, expected);

    // The resident set is exactly the new chunks.
    assert_eq!(state.resident_count(), 9);
    for c in &req1 {
        assert!(state.is_chunk_loaded(c.cx, c.cz));
    }
    for c in &req0 {
        assert!(!state.is_chunk_loaded(c.cx, c.cz));
    }
}
