use srtm_los::{TileCoord, TileData, MAS_PER_DEGREE};

#[test]
fn test_tile_coord_filename() {
    assert_eq!(TileCoord::new(37, -122).filename(), "N37W122.hgt");
    assert_eq!(TileCoord::new(-33, 151).filename(), "S33E151.hgt");
    assert_eq!(TileCoord::new(0, 0).filename(), "N00E000.hgt");
}

#[test]
fn test_from_world_coords() {
    // 37.7749°, -122.4194° and -33.8688°, 151.2093° in milliarcseconds.
    assert_eq!(TileCoord::from_world_coords(135_989_640, -440_709_840), TileCoord::new(37, -123));
    assert_eq!(TileCoord::from_world_coords(-121_927_680, 544_353_480), TileCoord::new(-34, 151));
}

#[test]
fn test_neighbors() {
    let coord = TileCoord::new(0, 0);
    let neighbors = coord.neighbors();
    assert_eq!(neighbors.len(), 8);
    assert!(neighbors.contains(&TileCoord::new(-1, -1)));
    assert!(neighbors.contains(&TileCoord::new(1, 1)));
}

#[test]
fn neighbors_exclude_self_and_are_distinct() {
    let coord = TileCoord::new(-5, 120);
    let n = coord.neighbors();
    assert!(!n.contains(&coord));
    for i in 0..n.len() {
        for j in 0..i {
            assert_ne!(n[i], n[j]);
        }
    }
    assert_eq!(n[0], TileCoord::new(-6, 119));
    assert_eq!(n[7], TileCoord::new(-4, 121));
}

#[test]
fn flooring_goes_toward_negative_infinity() {
    assert_eq!(TileCoord::from_world_coords(-121_927_680, 544_353_480), TileCoord::new(-34, 151));
    // Just below zero is cell -1, zero itself is cell 0.
    assert_eq!(TileCoord::from_world_coords(-1, -1), TileCoord::new(-1, -1));
    assert_eq!(TileCoord::from_world_coords(0, 0), TileCoord::new(0, 0));
    assert_eq!(
        TileCoord::from_world_coords(MAS_PER_DEGREE, -MAS_PER_DEGREE),
        TileCoord::new(1, -1)
    );
}

#[test]
fn filenames_for_every_sign_combination() {
    let cases = [
        (1_000, 1_000, "N00E000.hgt"),
        (-1_000, 1_000, "S01E000.hgt"),
        (1_000, -1_000, "N00W001.hgt"),
        (-1_000, -1_000, "S01W001.hgt"),
        (0, 0, "N00E000.hgt"),
        (45 * MAS_PER_DEGREE + 5, -(179 * MAS_PER_DEGREE) - 5, "N45W180.hgt"),
    ];
    for (lat, lon, name) in cases {
        assert_eq!(TileCoord::from_world_coords(lat, lon).filename(), name);
    }
    assert_eq!(TileCoord::new(-7, 8).filename(), "S07E008.hgt");
    assert_eq!(TileCoord::new(123, -4567).filename(), "N123W4567.hgt");
}

fn ramp(size: usize) -> TileData {
    let mut t = TileData::new(TileCoord::new(0, 0), size);
    for y in 0..size {
        for x in 0..size {
            t.set_height(x, y, (10 * y + x) as i16);
        }
    }
    t
}

#[test]
fn grid_lookup_is_bounds_checked() {
    let t = ramp(4);
    assert_eq!(t.get_height(3, 2), Some(23));
    assert_eq!(t.get_height(4, 0), None);
    assert_eq!(t.get_height(0, 4), None);
}

#[test]
fn set_height_outside_the_grid_changes_nothing() {
    let mut t = ramp(3);
    let before = t.heights.clone();
    t.set_height(3, 0, 99);
    assert_eq!(t.heights, before);
    t.set_height(1, 2, -7);
    assert_eq!(t.get_height(1, 2), Some(-7));
}

#[test]
fn interpolation_is_exact_at_grid_points() {
    let t = ramp(5);
    let den = 4u32;
    for y in 0..5usize {
        for x in 0..5usize {
            let h = t.get_height(x, y).unwrap() as i128;
            assert_eq!(t.get_height_normalized(x as i64, y as i64, den), h * 16);
        }
    }
}

#[test]
fn interpolation_blends_and_clamps() {
    let t = ramp(2);
    // Centre of a 2×2 grid: (0 + 1 + 10 + 11) / 4 = 5.5, scaled by 2².
    assert_eq!(t.get_height_normalized(1, 1, 2), 22);
    // Outside [0, 1] clamps to the corners.
    assert_eq!(t.get_height_normalized(-5, -5, 2), 0);
    assert_eq!(t.get_height_normalized(9, 9, 2), 11 * 4);
}

#[test]
fn height_range_scans_all_samples() {
    let mut t = TileData::new(TileCoord::new(1, 1), 3);
    t.set_height(2, 2, -40);
    t.set_height(0, 1, 300);
    assert_eq!(t.height_range(), (-40, 300));
    let empty = TileData::new(TileCoord::new(1, 1), 0);
    assert_eq!(empty.height_range(), (i16::MAX, i16::MIN));
}

#[test]
fn usable_grids_and_world_samples() {
    let t = ramp(2);
    assert!(t.is_usable());
    let mut short = ramp(2);
    short.heights.pop();
    assert!(!short.is_usable());
    assert!(!TileData::new(TileCoord::new(0, 0), 0).is_usable());
    // Positions in half degrees. Latitude 0.5° on the western edge lies
    // halfway between rows 0 and 1 of column 0: (0 + 10) / 2 = 5 m.
    let c = TileCoord::new(0, 0);
    assert_eq!(t.sample_world(&c, 1, 0, 2), 5 * 4);
    // The southern edge is row 1; longitude 0.5° is halfway to column 1.
    assert_eq!(t.sample_world(&c, 0, 1, 2), 42);
}
