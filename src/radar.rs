use crate::cache::TileSnapshot;
use crate::tile::{
    cell_at, in_cell, in_grid, lemma_bilinear_bound, lemma_in_own_cell, world_sample, TileCoord,
    TileData, MAS_PER_DEGREE,
};
use std::sync::Arc;
use vstd::prelude::*;

verus! {

/// Mean Earth radius, in centimeters.
pub const EARTH_RADIUS_CM: i128 = 637_100_000;

/// Eight Earth radii. With the 4/3 effective radius `Re`, `2 * Re` is
/// `EIGHT_EARTH_RADII_CM / 3`.
pub const EIGHT_EARTH_RADII_CM: i128 = 8 * EARTH_RADIUS_CM;

/// Half the circumference of the mean sphere, rounded up: no surface
/// distance is longer.
pub const MAX_SURFACE_CM: u64 = 2_001_508_680;

/// A height clamped to be at least zero.
pub open spec fn above_ground(h: int) -> int {
    if h < 0 {
        0
    } else {
        h
    }
}

/// Radio horizon test of the 4/3-Earth model: a target at surface distance
/// `d` is over neither horizon iff `d <= sqrt(2 h1 Re) + sqrt(2 h2 Re)`, all
/// in centimeters, heights clamped at zero. Written without roots: with
/// `a = 8 R h1` and `b = 8 R h2` (three times the squared horizon distances)
/// it reads `3 d^2 <= a + b + 2 sqrt(a b)`.
pub open spec fn within_horizon(d: int, h1: int, h2: int) -> bool {
    let a = EIGHT_EARTH_RADII_CM * above_ground(h1);
    let b = EIGHT_EARTH_RADII_CM * above_ground(h2);
    let x = 3 * d * d - a - b;
    x <= 0 || x * x <= 4 * a * b
}

/// Computes `within_horizon(d, h1, h2)`.
pub fn within_radio_horizon(d: u64, h1: i32, h2: i32) -> (r: bool)
    requires
        d <= MAX_SURFACE_CM,
    ensures
        r == within_horizon(d as int, h1 as int, h2 as int),
{
    let a: i128 = EIGHT_EARTH_RADII_CM * (if h1 < 0 { 0 } else { h1 as i128 });
    let b: i128 = EIGHT_EARTH_RADII_CM * (if h2 < 0 { 0 } else { h2 as i128 });
    let dd: i128 = d as i128;
    assert(dd * dd <= MAX_SURFACE_CM * MAX_SURFACE_CM) by (nonlinear_arith)
        requires
            0 <= dd <= MAX_SURFACE_CM,
    ;
    let x: i128 = 3 * (dd * dd) - a - b;
    assert(3 * d * d == 3 * (dd * dd)) by (nonlinear_arith)
        requires
            dd == d,
    ;
    assert(a == EIGHT_EARTH_RADII_CM * above_ground(h1 as int));
    assert(b == EIGHT_EARTH_RADII_CM * above_ground(h2 as int));
    if x <= 0 {
        true
    } else {
        assert(x * x <= 3 * MAX_SURFACE_CM * MAX_SURFACE_CM * 3 * MAX_SURFACE_CM * MAX_SURFACE_CM)
            by (nonlinear_arith)
            requires
                0 < x <= 3 * (MAX_SURFACE_CM * MAX_SURFACE_CM),
        ;
        assert(a * b <= EIGHT_EARTH_RADII_CM * i32::MAX * EIGHT_EARTH_RADII_CM * i32::MAX)
            by (nonlinear_arith)
            requires
                0 <= a <= EIGHT_EARTH_RADII_CM * i32::MAX,
                0 <= b <= EIGHT_EARTH_RADII_CM * i32::MAX,
        ;
        let xx: i128 = x * x;
        let ab: i128 = a * b;
        assert(((xx + 3) / 4 <= ab) == (xx <= 4 * ab)) by {
            vstd::arithmetic::div_mod::lemma_fundamental_div_mod(xx + 3, 4);
            vstd::arithmetic::div_mod::lemma_mod_bound(xx + 3, 4);
        }
        assert(4 * a * b == 4 * (a * b)) by (nonlinear_arith);
        (xx + 3) / 4 <= ab
    }
}

/// Raymarch step length: 500 m.
pub const STEP_CM: u64 = 50_000;

/// Fewest raymarch steps on any path.
pub const MIN_STEPS: u64 = 5;

/// Most raymarch steps on any path.
pub const MAX_STEPS: u64 = 200;

/// Paths shorter than this (100 m) are visible without a raymarch.
pub const SHORT_PATH_CM: u64 = 10_000;

/// Above this ray height (5000 m) no terrain is sampled.
pub const RAY_CEILING_CM: i128 = 500_000;

/// A ground-based sensor station. The position is in milliarcseconds with
/// the altitude in centimeters; the physical parameters (frequency in Hz,
/// powers and gain in hundredths of a dB) determine the detection range.
#[derive(Clone, Debug)]
pub struct Radar {
    pub name: String,
    pub lat: i64,
    pub lon: i64,
    pub alt: i32,
    pub enabled: bool,
    pub frequency_hz: u64,
    pub transmit_power_cdbm: i32,
    pub gain_cdbi: i32,
    pub sensitivity_cdbm: i32,
}

/// Number of raymarch samples on a path of `dist` centimeters: one per
/// started 500 m, clamped into [5, 200].
pub open spec fn step_count(dist: int) -> int {
    let n = (dist + STEP_CM - 1) / (STEP_CM as int);
    if n < MIN_STEPS {
        MIN_STEPS as int
    } else if n > MAX_STEPS {
        MAX_STEPS as int
    } else {
        n
    }
}

/// Computes `step_count(dist)`.
pub fn raymarch_steps(dist: u64) -> (r: u64)
    requires
        dist <= MAX_SURFACE_CM,
    ensures
        r == step_count(dist as int),
        MIN_STEPS <= r <= MAX_STEPS,
{
    let n: u64 = (dist + (STEP_CM - 1)) / STEP_CM;
    if n < MIN_STEPS {
        MIN_STEPS
    } else if n > MAX_STEPS {
        MAX_STEPS
    } else {
        n
    }
}

/// Latitude or longitude of sample `i` of `n` on the way from `s` to `t`,
/// in milliarcseconds scaled by `n`.
pub open spec fn sample_coord(s: int, t: int, n: int, i: int) -> int {
    s * (n - i) + t * i
}

/// Denominator of `ray_num`.
pub open spec fn ray_den(n: int) -> int {
    EIGHT_EARTH_RADII_CM * n * n
}

/// Height of the ray at sample `i` of `n`, in centimeters scaled by
/// `ray_den(n)`: altitude interpolated linearly between station (`a0`) and
/// target (`a1`), minus the sag `(t D)((1 - t) D) / (2 Re)` of the curved
/// path below the chord, with `t = i / n` and `D` the path length `dist`.
pub open spec fn ray_num(a0: int, a1: int, dist: int, n: int, i: int) -> int {
    (a0 * (n - i) + a1 * i) * EIGHT_EARTH_RADII_CM * n - 3 * (i * (n - i)) * (dist * dist)
}

/// `x / d` lies between two bounds that bracket `x` by multiples of `d`.
proof fn lemma_floor_between(x: int, d: int, qlo: int, qhi: int)
    requires
        d > 0,
        qlo * d <= x < (qhi + 1) * d,
    ensures
        qlo <= x / d <= qhi,
{
    vstd::arithmetic::div_mod::lemma_fundamental_div_mod(x, d);
    vstd::arithmetic::div_mod::lemma_mod_bound(x, d);
    let q = x / d;
    assert(qlo <= q) by (nonlinear_arith)
        requires
            d > 0,
            qlo * d <= x,
            x == d * q + x % d,
            x % d < d,
    ;
    assert(q <= qhi) by (nonlinear_arith)
        requires
            d > 0,
            x < (qhi + 1) * d,
            x == d * q + x % d,
            0 <= x % d,
    ;
}

/// Every sample between two positions whose cells fit `i32` also lies in a
/// cell that fits `i32`, and its scaled coordinate fits `i128` comfortably.
proof fn lemma_sample_cell(s: int, t: int, n: int, i: int)
    requires
        i64::MIN <= s <= i64::MAX,
        i64::MIN <= t <= i64::MAX,
        in_grid(s),
        in_grid(t),
        1 <= n <= MAX_STEPS,
        0 <= i <= n,
    ensures
        i32::MIN <= sample_coord(s, t, n, i) / (n * MAS_PER_DEGREE) <= i32::MAX,
        -0x1_0000_0000_0000_0000_0000 <= sample_coord(s, t, n, i) <= 0x1_0000_0000_0000_0000_0000,
{
    let m = MAS_PER_DEGREE as int;
    vstd::arithmetic::div_mod::lemma_fundamental_div_mod(s, m);
    vstd::arithmetic::div_mod::lemma_fundamental_div_mod(t, m);
    vstd::arithmetic::div_mod::lemma_mod_bound(s, m);
    vstd::arithmetic::div_mod::lemma_mod_bound(t, m);
    let qlo = if s / m < t / m { s / m } else { t / m };
    let qhi = if s / m < t / m { t / m } else { s / m };
    assert(qlo * m <= s < (qhi + 1) * m) by (nonlinear_arith)
        requires
            s == m * (s / m) + s % m,
            0 <= s % m < m,
            qlo <= s / m <= qhi,
    ;
    assert(qlo * m <= t < (qhi + 1) * m) by (nonlinear_arith)
        requires
            t == m * (t / m) + t % m,
            0 <= t % m < m,
            qlo <= t / m <= qhi,
    ;
    let x = sample_coord(s, t, n, i);
    assert(qlo * (n * m) <= x < (qhi + 1) * (n * m)) by (nonlinear_arith)
        requires
            x == s * (n - i) + t * i,
            qlo * m <= s <= (qhi + 1) * m - 1,
            qlo * m <= t <= (qhi + 1) * m - 1,
            1 <= n,
            0 <= i <= n,
    ;
    lemma_floor_between(x, n * m, qlo, qhi);
    assert(-0x1_0000_0000_0000_0000_0000 <= x <= 0x1_0000_0000_0000_0000_0000) by (nonlinear_arith)
        requires
            x == s * (n - i) + t * i,
            i64::MIN <= s <= i64::MAX,
            i64::MIN <= t <= i64::MAX,
            1 <= n <= 200,
            0 <= i <= n,
    ;
}

/// Computes `sample_coord(s, t, n, i)`.
fn sample_position(s: i64, t: i64, n: u64, i: u64) -> (r: i128)
    requires
        in_grid(s as int),
        in_grid(t as int),
        1 <= n <= MAX_STEPS,
        i <= n,
    ensures
        r == sample_coord(s as int, t as int, n as int, i as int),
{
    proof {
        lemma_sample_cell(s as int, t as int, n as int, i as int);
    }
    assert(-0x8000_0000_0000_0000 * 200 <= (s as int) * (n - i) <= 0x8000_0000_0000_0000 * 200)
        by (nonlinear_arith)
        requires
            i64::MIN <= s <= i64::MAX,
            0 <= n - i <= 200,
    ;
    assert(-0x8000_0000_0000_0000 * 200 <= (t as int) * i <= 0x8000_0000_0000_0000 * 200)
        by (nonlinear_arith)
        requires
            i64::MIN <= t <= i64::MAX,
            0 <= i <= 200,
    ;
    let a = (s as i128) * ((n - i) as i128);
    let b = (t as i128) * (i as i128);
    a + b
}

/// Computes `cell_at(la, lo, den)` for a sample position.
fn sample_cell(la: i128, lo: i128, den: u32) -> (r: TileCoord)
    requires
        den > 0,
        i32::MIN <= (la as int) / (den as int) <= i32::MAX,
        i32::MIN <= (lo as int) / (den as int) <= i32::MAX,
    ensures
        r == cell_at(la as int, lo as int, den as int),
{
    let lat = match la.checked_div_euclid(den as i128) {
        Some(q) => q as i32,
        None => 0,
    };
    let lon = match lo.checked_div_euclid(den as i128) {
        Some(q) => q as i32,
        None => 0,
    };
    TileCoord { lat, lon }
}

/// Computes `ray_num(a0, a1, dist, n, i)`, which stays within `10^24`.
fn ray_height(a0: i32, a1: i32, dist: u64, n: u64, i: u64) -> (r: i128)
    requires
        dist <= MAX_SURFACE_CM,
        1 <= n <= MAX_STEPS,
        i <= n,
    ensures
        r == ray_num(a0 as int, a1 as int, dist as int, n as int, i as int),
        -1_000_000_000_000_000_000_000_000 <= r <= 1_000_000_000_000_000_000_000_000,
{
    assert(-0x8000_0000 * 200 <= (a0 as int) * (n - i) <= 0x8000_0000 * 200) by (nonlinear_arith)
        requires
            i32::MIN <= a0 <= i32::MAX,
            0 <= n - i <= 200,
    ;
    assert(-0x8000_0000 * 200 <= (a1 as int) * i <= 0x8000_0000 * 200) by (nonlinear_arith)
        requires
            i32::MIN <= a1 <= i32::MAX,
            0 <= i <= 200,
    ;
    let lin: i128 = (a0 as i128) * ((n - i) as i128) + (a1 as i128) * (i as i128);
    assert(-0x8000_0000 * 200 <= lin <= 0x8000_0000 * 200) by (nonlinear_arith)
        requires
            lin == (a0 as int) * (n - i) + (a1 as int) * i,
            i32::MIN <= a0 <= i32::MAX,
            i32::MIN <= a1 <= i32::MAX,
            0 <= i <= n <= 200,
    ;
    assert(-0x8000_0000 * 200 * EIGHT_EARTH_RADII_CM * 200 <= lin * EIGHT_EARTH_RADII_CM * (
    n as i128) <= 0x8000_0000 * 200 * EIGHT_EARTH_RADII_CM * 200) by (nonlinear_arith)
        requires
            -0x8000_0000 * 200 <= lin <= 0x8000_0000 * 200,
            1 <= n <= 200,
    ;
    let top: i128 = lin * EIGHT_EARTH_RADII_CM * (n as i128);
    assert(0 <= i * (n - i) <= 200 * 200) by (nonlinear_arith)
        requires
            0 <= i <= n <= 200,
    ;
    let k: u64 = i * (n - i);
    let d: i128 = dist as i128;
    assert(0 <= d * d <= MAX_SURFACE_CM * MAX_SURFACE_CM) by (nonlinear_arith)
        requires
            0 <= d <= MAX_SURFACE_CM,
    ;
    assert(0 <= 3 * (k as i128) * (d * d) <= 3 * 40000 * (MAX_SURFACE_CM * MAX_SURFACE_CM))
        by (nonlinear_arith)
        requires
            0 <= k <= 40000,
            0 <= d <= MAX_SURFACE_CM,
    ;
    let sag: i128 = 3 * (k as i128) * (d * d);
    top - sag
}

/// The scaled terrain height `100 * t / den^2` exceeds the scaled ray height
/// `rn / ray_den(n)`, for a sample position inside cell `c`.
fn terrain_above_ray(t: &TileData, c: &TileCoord, la: i128, lo: i128, n: u64, rn: i128) -> (r: bool)
    requires
        t.usable(),
        1 <= n <= MAX_STEPS,
        in_cell(*c, la as int, lo as int, n * MAS_PER_DEGREE),
        -1_000_000_000_000_000_000_000_000 <= rn <= 1_000_000_000_000_000_000_000_000,
    ensures
        r == (100 * world_sample(*t, *c, la as int, lo as int, n * MAS_PER_DEGREE) * ray_den(n as int)
            > rn * ((n * MAS_PER_DEGREE) * (n * MAS_PER_DEGREE))),
{
    let den: u32 = (n as u32) * (MAS_PER_DEGREE as u32);
    let ghost dn = den as int;
    let h = t.sample_world(c, la, lo, den);
    proof {
        lemma_bilinear_bound(*t, lo - c.lon * dn, dn - (la - c.lat * dn), dn);
        assert(dn * dn <= 720_000_000 * 720_000_000) by (nonlinear_arith)
            requires
                0 < dn <= 720_000_000,
        ;
    }
    assert(-32768 * 720_000_000 * 720_000_000 <= h <= 32767 * 720_000_000 * 720_000_000)
        by (nonlinear_arith)
        requires
            -32768 * (dn * dn) <= h <= 32767 * (dn * dn),
            0 <= dn * dn <= 720_000_000 * 720_000_000,
    ;
    let lhs: i128 = 100 * h * EIGHT_EARTH_RADII_CM;
    let scale: i128 = (MAS_PER_DEGREE as i128) * (MAS_PER_DEGREE as i128);
    assert(-1_000_000_000_000_000_000_000_000 * scale <= rn * scale
        <= 1_000_000_000_000_000_000_000_000 * scale) by (nonlinear_arith)
        requires
            -1_000_000_000_000_000_000_000_000 <= rn <= 1_000_000_000_000_000_000_000_000,
            scale > 0,
    ;
    let rhs: i128 = rn * scale;
    proof {
        let nn = (n * n) as int;
        assert(nn > 0) by (nonlinear_arith)
            requires
                n >= 1,
                nn == n * n,
        ;
        assert(100 * h * ray_den(n as int) == lhs * nn) by (nonlinear_arith)
            requires
                lhs == 100 * h * EIGHT_EARTH_RADII_CM,
                nn == n * n,
        ;
        assert(rn * ((n * MAS_PER_DEGREE) * (n * MAS_PER_DEGREE)) == rhs * nn) by (nonlinear_arith)
            requires
                rhs == rn * scale,
                scale == MAS_PER_DEGREE * MAS_PER_DEGREE,
                nn == n * n,
        ;
        assert((lhs * nn > rhs * nn) == (lhs > rhs)) by (nonlinear_arith)
            requires
                nn > 0,
        ;
    }
    lhs > rhs
}

impl Radar {
    /// The station's cell indices fit `i32`.
    pub open spec fn placed(&self) -> bool {
        in_grid(self.lat as int) && in_grid(self.lon as int)
    }

    /// Fast geometric test: the station is enabled, the target lies within
    /// range, and it is over neither radio horizon. Terrain is ignored.
    pub open spec fn sees(&self, target_alt: int, dist: int, max_range: int) -> bool {
        &&& self.enabled
        &&& dist <= max_range
        &&& within_horizon(dist, self.alt as int, target_alt)
    }

    /// Sample `i` of the raymarch toward (`lat`, `lon`, `alt`) at surface
    /// distance `dist` finds known terrain above the ray. Samples whose ray
    /// is above the 5000 m ceiling, or whose cell has no usable data, never
    /// block.
    pub open spec fn sample_blocks(
        &self,
        lat: int,
        lon: int,
        alt: int,
        dist: int,
        tiles: Map<TileCoord, Arc<TileData>>,
        i: int,
    ) -> bool {
        let n = step_count(dist);
        let den = n * MAS_PER_DEGREE;
        let la = sample_coord(self.lat as int, lat, n, i);
        let lo = sample_coord(self.lon as int, lon, n, i);
        let c = cell_at(la, lo, den);
        let rn = ray_num(self.alt as int, alt, dist, n, i);
        &&& rn <= RAY_CEILING_CM * ray_den(n)
        &&& tiles.contains_key(c)
        &&& (*tiles[c]).usable()
        &&& 100 * world_sample(*tiles[c], c, la, lo, den) * ray_den(n) > rn * (den * den)
    }

    /// Terrain-aware visibility: the fast test holds, and the path is
    /// shorter than 100 m or no sample strictly between station and target
    /// is blocked.
    pub open spec fn sees_over_terrain(
        &self,
        lat: int,
        lon: int,
        alt: int,
        dist: int,
        max_range: int,
        tiles: Map<TileCoord, Arc<TileData>>,
    ) -> bool {
        &&& self.sees(alt, dist, max_range)
        &&& (dist < SHORT_PATH_CM || forall|i: int|
            1 <= i < step_count(dist) ==> !#[trigger] self.sample_blocks(
                lat,
                lon,
                alt,
                dist,
                tiles,
                i,
            ))
    }

    /// The fast geometric test for a target at altitude `target_alt`
    /// (centimeters) whose great-circle distance from the station is
    /// `surface_dist`, against the detection range `max_range` (both in
    /// centimeters).
    pub fn is_visible(&self, target_alt: i32, surface_dist: u64, max_range: u64) -> (r: bool)
        requires
            surface_dist <= MAX_SURFACE_CM,
        ensures
            r == self.sees(target_alt as int, surface_dist as int, max_range as int),
    {
        if !self.enabled {
            return false;
        }
        if surface_dist > max_range {
            return false;
        }
        within_radio_horizon(surface_dist, self.alt, target_alt)
    }

    /// Terrain-aware visibility of the target at (`target_lat`,
    /// `target_lon`) milliarcseconds and `target_alt` centimeters, whose
    /// great-circle distance from the station is `surface_dist`. After the
    /// fast test, the path is raymarched: a sample whose known terrain rises
    /// above the ray occludes the target; missing data never does.
    pub fn is_visible_raycast(
        &self,
        target_lat: i64,
        target_lon: i64,
        target_alt: i32,
        surface_dist: u64,
        max_range: u64,
        snapshot: &TileSnapshot,
    ) -> (r: bool)
        requires
            in_grid(self.lat as int),
            in_grid(self.lon as int),
            in_grid(target_lat as int),
            in_grid(target_lon as int),
            surface_dist <= MAX_SURFACE_CM,
        ensures
            r == self.sees_over_terrain(
                target_lat as int,
                target_lon as int,
                target_alt as int,
                surface_dist as int,
                max_range as int,
                snapshot@,
            ),
    {
        if !self.is_visible(target_alt, surface_dist, max_range) {
            return false;
        }
        if surface_dist < SHORT_PATH_CM {
            return true;
        }
        let n = raymarch_steps(surface_dist);
        let den: u32 = (n as u32) * (MAS_PER_DEGREE as u32);
        assert(RAY_CEILING_CM * EIGHT_EARTH_RADII_CM * n * n <= RAY_CEILING_CM
            * EIGHT_EARTH_RADII_CM * 200 * 200) by (nonlinear_arith)
            requires
                1 <= n <= 200,
        ;
        let ceiling: i128 = RAY_CEILING_CM * EIGHT_EARTH_RADII_CM * (n as i128) * (n as i128);
        assert(ceiling == RAY_CEILING_CM * ray_den(n as int)) by (nonlinear_arith)
            requires
                ceiling == RAY_CEILING_CM * EIGHT_EARTH_RADII_CM * n * n,
        ;
        let mut current: Option<TileCoord> = None;
        let mut current_data: Option<&Arc<TileData>> = None;
        let mut i: u64 = 1;
        while i < n
            invariant
                1 <= i <= n,
                n == step_count(surface_dist as int),
                MIN_STEPS <= n <= MAX_STEPS,
                den == n * MAS_PER_DEGREE,
                ceiling == RAY_CEILING_CM * ray_den(n as int),
                in_grid(self.lat as int),
                in_grid(self.lon as int),
                in_grid(target_lat as int),
                in_grid(target_lon as int),
                SHORT_PATH_CM <= surface_dist <= MAX_SURFACE_CM,
                self.sees(target_alt as int, surface_dist as int, max_range as int),
                forall|j: int|
                    1 <= j < i ==> !#[trigger] self.sample_blocks(
                        target_lat as int,
                        target_lon as int,
                        target_alt as int,
                        surface_dist as int,
                        snapshot@,
                        j,
                    ),
                current matches Some(c) ==> (snapshot@.contains_key(c) ==> current_data == Some(
                    &snapshot@[c],
                )) && (!snapshot@.contains_key(c) ==> current_data is None),
            decreases n - i,
        {
            let la = sample_position(self.lat, target_lat, n, i);
            let lo = sample_position(self.lon, target_lon, n, i);
            proof {
                lemma_sample_cell(self.lat as int, target_lat as int, n as int, i as int);
                lemma_sample_cell(self.lon as int, target_lon as int, n as int, i as int);
            }
            let c = sample_cell(la, lo, den);
            let rn = ray_height(self.alt, target_alt, surface_dist, n, i);
            if rn <= ceiling {
                let same = match current {
                    Some(p) => p.lat == c.lat && p.lon == c.lon,
                    None => false,
                };
                if !same {
                    current = Some(c);
                    current_data = snapshot.get(&c);
                }
                match current_data {
                    Some(d) => {
                        if d.is_usable() {
                            proof {
                                lemma_in_own_cell(la as int, lo as int, den as int);
                            }
                            if terrain_above_ray(d, &c, la, lo, n, rn) {
                                assert(self.sample_blocks(
                                    target_lat as int,
                                    target_lon as int,
                                    target_alt as int,
                                    surface_dist as int,
                                    snapshot@,
                                    i as int,
                                ));
                                return false;
                            }
                        }
                    },
                    None => {},
                }
            }
            i = i + 1;
        }
        true
    }
}

/// A target farther than the detection range is never visible, whatever
/// its altitude and the terrain: for a fixed station and bearing, moving the
/// target out past `max_range` always makes both tests fail.
pub proof fn lemma_beyond_range_not_visible(
    r: Radar,
    lat: int,
    lon: int,
    alt: int,
    dist: int,
    max_range: int,
    tiles: Map<TileCoord, Arc<TileData>>,
)
    requires
        dist > max_range,
    ensures
        !r.sees(alt, dist, max_range),
        !r.sees_over_terrain(lat, lon, alt, dist, max_range, tiles),
{
}

/// A target is not visible when, at some raymarch sample strictly between
/// station and target on a path of at least 100 m, known terrain rises
/// above the ray (after the curvature sag) and the ray is under the 5000 m
/// ceiling; this holds even where the fast geometric test passes.
pub proof fn lemma_occluded_not_visible(
    r: Radar,
    lat: int,
    lon: int,
    alt: int,
    dist: int,
    max_range: int,
    tiles: Map<TileCoord, Arc<TileData>>,
    i: int,
)
    requires
        dist >= SHORT_PATH_CM,
        1 <= i < step_count(dist),
        r.sample_blocks(lat, lon, alt, dist, tiles, i),
    ensures
        !r.sees_over_terrain(lat, lon, alt, dist, max_range, tiles),
{
}

/// Surface distance and detection range of one station toward one target,
/// both in centimeters.
#[derive(Clone, Copy, Debug)]
pub struct PathGeometry {
    pub surface_dist: u64,
    pub max_range: u64,
}

/// The stations of a sensor network, in attribution order.
#[derive(Clone, Debug)]
pub struct Radars {
    pub stations: Vec<Radar>,
}

impl Radar {
    /// An enabled L-band en-route station (1.3 GHz, 80 dBm, 35 dBi,
    /// -113 dBm) at the given place.
    pub fn en_route(name: &str, lat: i64, lon: i64, alt: i32) -> (r: Radar)
        ensures
            r.name@ == name@,
            r.lat == lat,
            r.lon == lon,
            r.alt == alt,
            r.enabled,
            r.frequency_hz == 1_300_000_000,
            r.transmit_power_cdbm == 8000,
            r.gain_cdbi == 3500,
            r.sensitivity_cdbm == -11300,
    {
        Radar {
            name: String::from_str(name),
            lat,
            lon,
            alt,
            enabled: true,
            frequency_hz: 1_300_000_000,
            transmit_power_cdbm: 8000,
            gain_cdbi: 3500,
            sensitivity_cdbm: -11300,
        }
    }
}

impl Default for Radars {
    /// Three en-route stations of south-eastern France: Mont Agel,
    /// Sainte-Baume and Lyon (Mont Verdun).
    fn default() -> (r: Radars)
        ensures
            r.stations@.len() == 3,
            forall|k: int| 0 <= k < 3 ==> (#[trigger] r.stations@[k]).placed(),
    {
        let mut stations: Vec<Radar> = Vec::new();
        stations.push(Radar::en_route("Mont Agel", 157_591_008, 26_735_004, 124_800));
        stations.push(Radar::en_route("Sainte-Baume", 156_001_320, 20_831_760, 114_800));
        stations.push(Radar::en_route("Lyon (Mont Verdun)", 165_059_280, 17_206_200, 62_600));
        Radars { stations }
    }
}

impl Radars {
    /// Station `k` sees the target over the terrain `tiles`, along the
    /// geometry `g`.
    pub open spec fn station_sees(
        &self,
        k: int,
        lat: int,
        lon: int,
        alt: int,
        g: PathGeometry,
        tiles: Map<TileCoord, Arc<TileData>>,
    ) -> bool {
        self.stations@[k].sees_over_terrain(
            lat,
            lon,
            alt,
            g.surface_dist as int,
            g.max_range as int,
            tiles,
        )
    }

    /// The first station, in list order, that sees the target at (`lat`,
    /// `lon`) milliarcseconds and `alt` centimeters; `paths[k]` is the
    /// geometry from station `k` to the target. `None` if no station does.
    pub fn check_visibility(
        &self,
        lat: i64,
        lon: i64,
        alt: i32,
        paths: &Vec<PathGeometry>,
        snapshot: &TileSnapshot,
    ) -> (r: Option<usize>)
        requires
            paths@.len() == self.stations@.len(),
            in_grid(lat as int),
            in_grid(lon as int),
            forall|k: int| 0 <= k < self.stations@.len() ==> (#[trigger] self.stations@[k]).placed(),
            forall|k: int|
                0 <= k < paths@.len() ==> #[trigger] paths@[k].surface_dist <= MAX_SURFACE_CM,
        ensures
            r matches Some(k) ==> k < self.stations@.len() && self.station_sees(
                k as int,
                lat as int,
                lon as int,
                alt as int,
                paths@[k as int],
                snapshot@,
            ) && forall|j: int|
                0 <= j < k ==> !#[trigger] self.station_sees(
                    j,
                    lat as int,
                    lon as int,
                    alt as int,
                    paths@[j],
                    snapshot@,
                ),
            r is None ==> forall|j: int|
                0 <= j < self.stations@.len() ==> !#[trigger] self.station_sees(
                    j,
                    lat as int,
                    lon as int,
                    alt as int,
                    paths@[j],
                    snapshot@,
                ),
    {
        let mut k: usize = 0;
        while k < self.stations.len()
            invariant
                k <= self.stations@.len(),
                paths@.len() == self.stations@.len(),
                in_grid(lat as int),
                in_grid(lon as int),
                forall|q: int| 0 <= q < self.stations@.len() ==> (#[trigger] self.stations@[q]).placed(),
                forall|q: int|
                    0 <= q < paths@.len() ==> #[trigger] paths@[q].surface_dist <= MAX_SURFACE_CM,
                forall|j: int|
                    0 <= j < k ==> !#[trigger] self.station_sees(
                        j,
                        lat as int,
                        lon as int,
                        alt as int,
                        paths@[j],
                        snapshot@,
                    ),
            decreases self.stations@.len() - k,
        {
            let station = &self.stations[k];
            let g = paths[k];
            if station.enabled && station.is_visible_raycast(
                lat,
                lon,
                alt,
                g.surface_dist,
                g.max_range,
                snapshot,
            ) {
                return Some(k);
            }
            k = k + 1;
        }
        None
    }
}

} // verus!
