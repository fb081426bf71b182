use srtm_los::{
    CoverageAction, DownloadResult, LoadError, TileCache, TileCoord, TileData, TileState,
    MAS_PER_DEGREE, TILE_BYTES,
};

fn flat(coord: TileCoord, size: usize, h: i16) -> TileData {
    let mut t = TileData::new(coord, size);
    for v in t.heights.iter_mut() {
        *v = h;
    }
    t
}

#[test]
fn terminal_state_replaces_loading() {
    let c = TileCoord::new(10, 20);
    let mut cache = TileCache::new();
    cache.mark_loading(c);
    assert!(matches!(cache.get_tile(&c), Some(TileState::Loading)));
    cache.insert_tile(c, TileState::Missing);
    assert!(matches!(cache.get_tile(&c), Some(TileState::Missing)));
    cache.mark_loading(c);
    cache.insert_tile(c, TileState::Error("timeout".to_string()));
    match cache.get_tile(&c) {
        Some(TileState::Error(m)) => assert_eq!(m, "timeout"),
        _ => panic!("expected an error state"),
    }
    assert!(!cache.has_tile(&TileCoord::new(10, 21)));
}

#[test]
fn snapshot_is_isolated_from_later_changes() {
    let a = TileCoord::new(0, 0);
    let b = TileCoord::new(0, 1);
    let mut cache = TileCache::new();
    cache.insert_data(a, flat(a, 3, 100));
    cache.mark_loading(b);
    let snap = cache.get_snapshot();
    let before = snap.get_height_global(1_800_000, 1_800_000);
    assert_eq!(before, Some(100_000));
    cache.insert_data(a, flat(a, 3, 900));
    cache.insert_data(b, flat(b, 3, 50));
    cache.clear_memory();
    assert_eq!(snap.get_height_global(1_800_000, 1_800_000), before);
    assert!(snap.get(&b).is_none());
    assert_eq!(cache.get_height_global(1_800_000, 1_800_000), None);
}

#[test]
fn snapshot_holds_only_loaded_tiles() {
    let mut cache = TileCache::new();
    let a = TileCoord::new(-1, -1);
    cache.insert_data(a, flat(a, 2, 7));
    cache.mark_loading(TileCoord::new(5, 5));
    cache.insert_tile(TileCoord::new(6, 6), TileState::Missing);
    let snap = cache.get_snapshot();
    assert_eq!(snap.get(&a).map(|d| d.heights[0]), Some(7));
    assert!(snap.get(&TileCoord::new(5, 5)).is_none());
    assert!(snap.get(&TileCoord::new(6, 6)).is_none());
    let loaded = cache.loaded_tiles();
    assert_eq!(loaded.len(), 1);
    assert_eq!(loaded[0].0, a);
    assert_eq!(loaded[0].1.heights, vec![7, 7, 7, 7]);
}

#[test]
fn global_height_inverts_rows() {
    // Row 0 is north: a tile whose top row is 1000 m and bottom row 0 m.
    let c = TileCoord::new(0, 0);
    let mut t = TileData::new(c, 2);
    t.set_height(0, 0, 1000);
    t.set_height(1, 0, 1000);
    let mut cache = TileCache::new();
    cache.insert_data(c, t);
    // Near the northern edge the height is near 1000 m, near the south 0 m.
    assert_eq!(cache.get_height_global(MAS_PER_DEGREE - 1, 0), Some(999_999));
    assert_eq!(cache.get_height_global(0, 0), Some(0));
    // Halfway up: 500 m, exactly.
    assert_eq!(cache.get_height_global(1_800_000, 900_000), Some(500_000));
    // Unknown tiles give nothing.
    assert_eq!(cache.get_height_global(-1, 0), None);
}

#[test]
fn coverage_policy_guards_duplicate_requests() {
    let c = TileCoord::new(45, 4);
    let mut cache = TileCache::new();
    assert_eq!(cache.begin_coverage(c, false), CoverageAction::RequestDownload);
    assert!(matches!(cache.get_tile(&c), Some(TileState::Loading)));
    assert_eq!(cache.begin_coverage(c, false), CoverageAction::Skip);
    let d = TileCoord::new(45, 5);
    assert_eq!(cache.begin_coverage(d, true), CoverageAction::LoadFromDisk);
    assert!(!cache.has_tile(&d));
    cache.finish_disk_load(d, Err(LoadError::SizeMismatch { expected: TILE_BYTES, actual: 3 }));
    match cache.get_tile(&d) {
        Some(TileState::Error(m)) => {
            assert_eq!(m, "Invalid tile size: expected 25934402 bytes, got 3")
        }
        _ => panic!("expected an error state"),
    }
    cache.finish_disk_load(d, Ok(flat(d, 2, 5)));
    assert!(matches!(cache.get_tile(&d), Some(TileState::Loaded(_))));
}

#[test]
fn download_results_become_terminal_states() {
    let mut cache = TileCache::new();
    let a = TileCoord::new(1, 2);
    let b = TileCoord::new(3, 4);
    let e = TileCoord::new(5, 6);
    for c in [a, b, e] {
        cache.mark_loading(c);
    }
    let saved = cache.apply_download(DownloadResult::Success(flat(a, 2, 12)));
    assert_eq!(saved.map(|d| d.coord), Some(a));
    assert!(cache.apply_download(DownloadResult::Missing(b)).is_none());
    assert!(cache.apply_download(DownloadResult::Error(e, "reset".to_string())).is_none());
    assert!(matches!(cache.get_tile(&a), Some(TileState::Loaded(_))));
    assert!(matches!(cache.get_tile(&b), Some(TileState::Missing)));
    assert!(matches!(cache.get_tile(&e), Some(TileState::Error(_))));
}

#[test]
fn extreme_coordinates_have_distinct_entries() {
    let mut cache = TileCache::new();
    let lo = TileCoord::new(i32::MIN, i32::MIN);
    let hi = TileCoord::new(i32::MAX, i32::MAX);
    cache.insert_tile(lo, TileState::Missing);
    cache.mark_loading(hi);
    assert!(matches!(cache.get_tile(&lo), Some(TileState::Missing)));
    assert!(matches!(cache.get_tile(&hi), Some(TileState::Loading)));
    assert!(!cache.has_tile(&TileCoord::new(i32::MIN, i32::MAX)));
}
