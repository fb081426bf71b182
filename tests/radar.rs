use srtm_los::{
    raymarch_steps, within_radio_horizon, PathGeometry, Radar, Radars, TileCache, TileCoord,
    TileData, MAS_PER_DEGREE,
};

fn station(lat: i64, lon: i64, alt: i32) -> Radar {
    Radar::en_route("test", lat, lon, alt)
}

fn flat(coord: TileCoord, size: usize, h: i16) -> TileData {
    let mut t = TileData::new(coord, size);
    for v in t.heights.iter_mut() {
        *v = h;
    }
    t
}

// Station at (0.1°, 0.1°) and target at (0.1°, 0.5°), both 1000 m up,
// about 44.5 km apart.
const S_LAT: i64 = MAS_PER_DEGREE / 10;
const S_LON: i64 = MAS_PER_DEGREE / 10;
const T_LAT: i64 = MAS_PER_DEGREE / 10;
const T_LON: i64 = MAS_PER_DEGREE / 2;
const DIST: u64 = 4_447_800;
const RANGE: u64 = 40_000_000;

#[test]
fn radio_horizon_is_exact() {
    // sqrt(2 h Re) for h = 100 m is 4_121_811.9 cm; twice that is the bound.
    assert!(within_radio_horizon(8_243_623, 10_000, 10_000));
    assert!(!within_radio_horizon(8_243_624, 10_000, 10_000));
    // Heights below ground count as zero.
    assert!(within_radio_horizon(0, -50, -50));
    assert!(!within_radio_horizon(1, -50, -50));
    assert!(within_radio_horizon(4_121_811, 10_000, -3));
}

#[test]
fn step_count_is_clamped() {
    assert_eq!(raymarch_steps(0), 5);
    assert_eq!(raymarch_steps(250_000), 5);
    assert_eq!(raymarch_steps(300_000), 6);
    assert_eq!(raymarch_steps(300_001), 7);
    assert_eq!(raymarch_steps(DIST), 89);
    assert_eq!(raymarch_steps(1_000_000_000), 200);
}

#[test]
fn targets_past_max_range_are_never_visible() {
    let r = station(S_LAT, S_LON, 100_000);
    let range = 5_000_000u64;
    assert!(r.is_visible(100_000, range, range));
    for d in [range + 1, range + 50_000, 2 * range, 20 * range] {
        assert!(!r.is_visible(100_000, d, range));
        assert!(!r.is_visible(i32::MAX, d, range));
    }
}

#[test]
fn disabled_station_sees_nothing() {
    let mut r = station(S_LAT, S_LON, 100_000);
    r.enabled = false;
    assert!(!r.is_visible(100_000, 1_000, RANGE));
    let snap = TileCache::new().get_snapshot();
    assert!(!r.is_visible_raycast(T_LAT, T_LON, 100_000, 1_000, RANGE, &snap));
}

#[test]
fn terrain_above_the_ray_occludes() {
    let r = station(S_LAT, S_LON, 100_000);
    let c = TileCoord::new(0, 0);
    assert!(r.is_visible(100_000, DIST, RANGE));

    // No terrain data: nothing blocks.
    let empty = TileCache::new();
    assert!(r.is_visible_raycast(T_LAT, T_LON, 100_000, DIST, RANGE, &empty.get_snapshot()));

    // Low terrain: still visible.
    let mut low = TileCache::new();
    low.insert_data(c, flat(c, 3601, 200));
    assert!(r.is_visible_raycast(T_LAT, T_LON, 100_000, DIST, RANGE, &low.get_snapshot()));

    // A 3000 m plateau rises above a 1000 m ray.
    let mut high = TileCache::new();
    high.insert_data(c, flat(c, 3601, 3000));
    assert!(!r.is_visible_raycast(T_LAT, T_LON, 100_000, DIST, RANGE, &high.get_snapshot()));
}

#[test]
fn ridge_between_station_and_target_occludes() {
    let r = station(S_LAT, S_LON, 100_000);
    let c = TileCoord::new(0, 0);
    // A 2000 m north-south ridge around longitude 0.3° (columns 1060..1100).
    let mut t = TileData::new(c, 3601);
    for y in 0..3601 {
        for x in 1060..1100 {
            t.set_height(x, y, 2000);
        }
    }
    let mut cache = TileCache::new();
    cache.insert_data(c, t);
    let snap = cache.get_snapshot();
    assert!(!r.is_visible_raycast(T_LAT, T_LON, 100_000, DIST, RANGE, &snap));
    // A ray above the 5000 m ceiling is not checked against terrain.
    let high = station(S_LAT, S_LON, 900_000);
    assert!(high.is_visible_raycast(T_LAT, T_LON, 900_000, DIST, RANGE, &snap));
}

#[test]
fn short_paths_are_visible() {
    let r = station(S_LAT, S_LON, 100_000);
    let c = TileCoord::new(0, 0);
    let mut cache = TileCache::new();
    cache.insert_data(c, flat(c, 3601, 3000));
    let snap = cache.get_snapshot();
    assert!(r.is_visible_raycast(S_LAT, S_LON + 1_000, 100_000, 3_000, RANGE, &snap));
}

#[test]
fn first_seeing_station_is_attributed() {
    let mut net = Radars { stations: vec![station(S_LAT, S_LON, 100_000), station(S_LAT, S_LON, 100_000)] };
    let snap = TileCache::new().get_snapshot();
    let paths = vec![
        PathGeometry { surface_dist: DIST, max_range: RANGE },
        PathGeometry { surface_dist: DIST, max_range: RANGE },
    ];
    assert_eq!(net.check_visibility(T_LAT, T_LON, 100_000, &paths, &snap), Some(0));
    net.stations[0].enabled = false;
    assert_eq!(net.check_visibility(T_LAT, T_LON, 100_000, &paths, &snap), Some(1));
    net.stations[1].enabled = false;
    assert_eq!(net.check_visibility(T_LAT, T_LON, 100_000, &paths, &snap), None);
}

#[test]
fn default_network_has_three_stations() {
    let net = Radars::default();
    assert_eq!(net.stations.len(), 3);
    assert_eq!(net.stations[0].name, "Mont Agel");
    assert_eq!(TileCoord::from_world_coords(net.stations[0].lat, net.stations[0].lon), TileCoord::new(43, 7));
    assert!(net.stations.iter().all(|s| s.enabled));
}
