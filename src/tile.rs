use crate::decimal::{
    lemma_digit_char_injective, lemma_three_digits, lemma_two_digits, push_zero_padded, zero_padded,
};
use std::sync::Arc;
use vstd::prelude::*;

verus! {

/// Milliarcseconds in one degree: the unit of world latitude and longitude.
pub const MAS_PER_DEGREE: i64 = 3_600_000;

/// Index of the 1° cell that holds a world coordinate given in
/// milliarcseconds: rounds toward negative infinity.
pub open spec fn tile_index(m: int) -> int {
    m / (MAS_PER_DEGREE as int)
}

/// Identifies the 1°×1° cell whose south-west corner is (`lat`, `lon`)
/// degrees; south and west are negative.
#[derive(Debug, Clone, Copy, PartialEq, Eq, Hash, Structural)]
pub struct TileCoord {
    pub lat: i32,
    pub lon: i32,
}

/// A world coordinate (milliarcseconds) whose cell index fits `i32`.
pub open spec fn in_grid(m: int) -> bool {
    i32::MIN <= tile_index(m) <= i32::MAX
}

/// The cell that holds world position (`lat / den`, `lon / den`) degrees.
pub open spec fn cell_at(lat: int, lon: int, den: int) -> TileCoord {
    TileCoord { lat: (lat / den) as i32, lon: (lon / den) as i32 }
}

/// The cell that holds world position (`lat`, `lon`), in milliarcseconds.
pub open spec fn cell_of(lat: int, lon: int) -> TileCoord {
    cell_at(lat, lon, MAS_PER_DEGREE as int)
}

/// A position lies in the cell that `cell_at` gives for it.
pub proof fn lemma_in_own_cell(lat: int, lon: int, den: int)
    requires
        den > 0,
        i32::MIN <= lat / den <= i32::MAX,
        i32::MIN <= lon / den <= i32::MAX,
    ensures
        in_cell(cell_at(lat, lon, den), lat, lon, den),
{
    vstd::arithmetic::div_mod::lemma_fundamental_div_mod(lat, den);
    vstd::arithmetic::div_mod::lemma_fundamental_div_mod(lon, den);
    assert((lat / den) * den == den * (lat / den)) by (nonlinear_arith);
    assert((lon / den) * den == den * (lon / den)) by (nonlinear_arith);
    assert((lat / den + 1) * den == den * (lat / den) + den) by (nonlinear_arith);
    assert((lon / den + 1) * den == den * (lon / den) + den) by (nonlinear_arith);
}

/// Computes `tile_index(m)`.
fn floor_degrees(m: i64) -> (r: i32)
    requires
        in_grid(m as int),
    ensures
        r == tile_index(m as int),
{
    match m.checked_div_euclid(MAS_PER_DEGREE) {
        Some(q) => q as i32,
        None => 0,
    }
}

/// Absolute value.
pub open spec fn abs(x: int) -> nat {
    if x < 0 {
        (-x) as nat
    } else {
        x as nat
    }
}

/// Canonical file name of the cell with south-west corner (`lat`, `lon`):
/// hemisphere letter, latitude zero-padded to two digits, hemisphere letter,
/// longitude zero-padded to three digits, then `.hgt`.
pub open spec fn tile_filename(lat: int, lon: int) -> Seq<char> {
    seq![if lat >= 0 { 'N' } else { 'S' }] + zero_padded(abs(lat), 2) + seq![
        if lon >= 0 { 'E' } else { 'W' },
    ] + zero_padded(abs(lon), 3) + seq!['.', 'h', 'g', 't']
}

/// The eight cells around `c`, row by row from the south-west.
pub open spec fn neighbor_seq(c: TileCoord) -> Seq<TileCoord> {
    let (a, o) = (c.lat as int, c.lon as int);
    seq![
        TileCoord { lat: (a - 1) as i32, lon: (o - 1) as i32 },
        TileCoord { lat: (a - 1) as i32, lon: o as i32 },
        TileCoord { lat: (a - 1) as i32, lon: (o + 1) as i32 },
        TileCoord { lat: a as i32, lon: (o - 1) as i32 },
        TileCoord { lat: a as i32, lon: (o + 1) as i32 },
        TileCoord { lat: (a + 1) as i32, lon: (o - 1) as i32 },
        TileCoord { lat: (a + 1) as i32, lon: o as i32 },
        TileCoord { lat: (a + 1) as i32, lon: (o + 1) as i32 },
    ]
}

/// The name of the cell holding a world position starts with `N` exactly
/// when the latitude is not negative and carries `E` exactly when the
/// longitude is not negative (flooring sends -0.5° to cell -1, `S01`). For
/// cells within ±99° latitude and ±999° longitude it is eleven characters
/// long and names no other cell, whatever the signs.
pub proof fn lemma_filename_of_world_position(lat: int, lon: int, other: TileCoord)
    requires
        in_grid(lat),
        in_grid(lon),
    ensures
        ({
            let c = cell_of(lat, lon);
            let f = tile_filename(c.lat as int, c.lon as int);
            &&& f[0] == (if lat >= 0 { 'N' } else { 'S' })
            &&& f == seq![if lat >= 0 { 'N' } else { 'S' }] + zero_padded(abs(tile_index(lat)), 2)
                + seq![if lon >= 0 { 'E' } else { 'W' }] + zero_padded(abs(tile_index(lon)), 3)
                + seq!['.', 'h', 'g', 't']
            &&& (-99 <= c.lat <= 99 && -999 <= c.lon <= 999) ==> f.len() == 11 && f[3] == (if lon
                >= 0 { 'E' } else { 'W' })
            &&& (-99 <= c.lat <= 99 && -999 <= c.lon <= 999 && -99 <= other.lat <= 99 && -999
                <= other.lon <= 999 && tile_filename(other.lat as int, other.lon as int) == f)
                ==> other == c
        }),
{
    let c = cell_of(lat, lon);
    lemma_floor_sign(lat);
    lemma_floor_sign(lon);
    if -99 <= c.lat <= 99 && -999 <= c.lon <= 999 {
        lemma_two_digits(abs(c.lat as int));
        lemma_three_digits(abs(c.lon as int));
        if -99 <= other.lat <= 99 && -999 <= other.lon <= 999 {
            lemma_filename_injective(c, other);
        }
    }
}

/// A world coordinate and its cell index have the same sign.
proof fn lemma_floor_sign(x: int)
    ensures
        tile_index(x) >= 0 <==> x >= 0,
{
    let m = MAS_PER_DEGREE as int;
    if x >= 0 {
        vstd::arithmetic::div_mod::lemma_div_pos_is_pos(x, m);
    } else {
        vstd::arithmetic::div_mod::lemma_fundamental_div_mod(x, m);
        vstd::arithmetic::div_mod::lemma_mod_bound(x, m);
    }
}

/// Within ±99° latitude and ±999° longitude, two cells with the same name
/// are the same cell.
proof fn lemma_filename_injective(c: TileCoord, d: TileCoord)
    requires
        -99 <= c.lat <= 99,
        -999 <= c.lon <= 999,
        -99 <= d.lat <= 99,
        -999 <= d.lon <= 999,
    ensures
        tile_filename(c.lat as int, c.lon as int) == tile_filename(d.lat as int, d.lon as int) ==> c
            == d,
{
    let f = tile_filename(c.lat as int, c.lon as int);
    let g = tile_filename(d.lat as int, d.lon as int);
    if f == g {
        let (a, b) = (abs(c.lat as int), abs(d.lat as int));
        let (p, q) = (abs(c.lon as int), abs(d.lon as int));
        lemma_two_digits(a);
        lemma_two_digits(b);
        lemma_three_digits(p);
        lemma_three_digits(q);
        assert(g[1] == f[1] && g[2] == f[2] && g[4] == f[4] && g[5] == f[5] && g[6] == f[6]);
        lemma_digit_char_injective((a / 10) as int, (b / 10) as int);
        lemma_digit_char_injective((a % 10) as int, (b % 10) as int);
        lemma_digit_char_injective((p / 100) as int, (q / 100) as int);
        lemma_digit_char_injective((p / 10 % 10) as int, (q / 10 % 10) as int);
        lemma_digit_char_injective((p % 10) as int, (q % 10) as int);
        assert(a == b);
        assert(p == q);
        assert(g[0] == f[0] && g[3] == f[3]);
    }
}

/// Magnitude of a coordinate as an unsigned number.
fn magnitude(x: i32) -> (r: u64)
    ensures
        r == abs(x as int),
{
    if x < 0 {
        (-(x as i64)) as u64
    } else {
        x as u64
    }
}

impl TileCoord {
    pub fn new(lat: i32, lon: i32) -> (r: TileCoord)
        ensures
            r.lat == lat,
            r.lon == lon,
    {
        TileCoord { lat, lon }
    }

    /// The cell holding a world position given in milliarcseconds; rounds
    /// toward negative infinity, so -33.8688° lies in cell -34.
    pub fn from_world_coords(lat: i64, lon: i64) -> (r: TileCoord)
        requires
            in_grid(lat as int),
            in_grid(lon as int),
        ensures
            r == cell_of(lat as int, lon as int),
    {
        TileCoord { lat: floor_degrees(lat), lon: floor_degrees(lon) }
    }

    /// Canonical file name, e.g. `N37W122.hgt` for (37, -122) and
    /// `N00E000.hgt` for (0, 0).
    pub fn filename(&self) -> (r: String)
        ensures
            r@ == tile_filename(self.lat as int, self.lon as int),
    {
        proof {
            reveal_strlit("N");
            reveal_strlit("S");
            reveal_strlit("E");
            reveal_strlit("W");
            reveal_strlit(".hgt");
        }
        let mut s = String::new();
        s.append(if self.lat >= 0 { "N" } else { "S" });
        push_zero_padded(&mut s, magnitude(self.lat), 2);
        s.append(if self.lon >= 0 { "E" } else { "W" });
        push_zero_padded(&mut s, magnitude(self.lon), 3);
        s.append(".hgt");
        assert(s@ =~= tile_filename(self.lat as int, self.lon as int));
        s
    }

    /// The eight surrounding cells, excluding `self`.
    pub fn neighbors(&self) -> (r: Vec<TileCoord>)
        requires
            i32::MIN < self.lat < i32::MAX,
            i32::MIN < self.lon < i32::MAX,
        ensures
            r@ == neighbor_seq(*self),
            r@.len() == 8,
            !r@.contains(*self),
    {
        let mut r: Vec<TileCoord> = Vec::new();
        let mut dlat: i32 = -1;
        while dlat <= 1
            invariant
                -1 <= dlat <= 2,
                i32::MIN < self.lat < i32::MAX,
                i32::MIN < self.lon < i32::MAX,
                r@ == neighbor_seq(*self).take(if dlat == -1 { 0int } else if dlat == 0 { 3 } else if dlat == 1 { 5 } else { 8 }),
            decreases 2 - dlat,
        {
            let mut dlon: i32 = -1;
            let ghost base = r@.len();
            while dlon <= 1
                invariant
                    -1 <= dlat <= 1,
                    -1 <= dlon <= 2,
                    i32::MIN < self.lat < i32::MAX,
                    i32::MIN < self.lon < i32::MAX,
                    base == (if dlat == -1 { 0int } else if dlat == 0 { 3 } else { 5 }),
                    r@ == neighbor_seq(*self).take(base + (if dlon == -1 { 0int } else if dlon == 0 { 1 } else if dlon == 1 {
                        if dlat == 0 { 1 } else { 2 }
                    } else if dlat == 0 { 2 } else { 3 })),
                decreases 2 - dlon,
            {
                if !(dlat == 0 && dlon == 0) {
                    r.push(TileCoord::new(self.lat + dlat, self.lon + dlon));
                }
                dlon = dlon + 1;
                assert(r@ =~= neighbor_seq(*self).take(base + (if dlon == -1 { 0int } else if dlon == 0 { 1 } else if dlon == 1 {
                        if dlat == 0 { 1 } else { 2 }
                    } else if dlat == 0 { 2 } else { 3 })));
            }
            dlat = dlat + 1;
        }
        assert(r@ =~= neighbor_seq(*self));
        r
    }
}


/// Lifecycle of one tile in the cache. `Loading` is left only by a terminal
/// state; a terminal state is replaced only by an explicit re-insert.
#[derive(Debug, Clone, PartialEq)]
pub enum TileState {
    /// A download has been requested and has not answered yet.
    Loading,
    /// Elevation data, shared read-only between the cache and its snapshots.
    Loaded(Arc<TileData>),
    /// Confirmed absent upstream; no retry is implied.
    Missing,
    /// Loading failed with this message.
    Error(String),
}

/// Elevation grid of one tile: `size`×`size` samples in meters, row-major,
/// row 0 northernmost and column 0 westernmost.
#[derive(Debug, Clone, PartialEq)]
pub struct TileData {
    pub coord: TileCoord,
    pub size: usize,
    pub heights: Vec<i16>,
}

/// Clamps `n` into `[0, den]`.
pub open spec fn clamp_unit(n: int, den: int) -> int {
    if n < 0 {
        0
    } else if n > den {
        den
    } else {
        n
    }
}

/// Pixel position `clamp_unit(n, den) / den * (size - 1)` split into the
/// lower sample index, the upper sample index and the fraction (over `den`)
/// between them.
pub open spec fn axis_split(n: int, size: int, den: int) -> (int, int, int) {
    let p = clamp_unit(n, den) * (size - 1);
    let i0 = p / den;
    let i1 = if i0 + 1 < size - 1 { i0 + 1 } else { size - 1 };
    (i0, i1, p % den)
}

impl TileData {
    /// The heights vector holds exactly one sample per grid cell.
    pub open spec fn wf(&self) -> bool {
        self.heights@.len() == self.size * self.size
    }

    /// Sample at column `x`, row `y`.
    pub open spec fn height_at(&self, x: int, y: int) -> int {
        self.heights@[y * self.size + x] as int
    }

    /// Bilinear interpolation at normalized position (`nx / den`, `ny / den`),
    /// each clamped into [0, 1], scaled by `den * den`.
    pub open spec fn bilinear(&self, nx: int, ny: int, den: int) -> int {
        let (x0, x1, fx) = axis_split(nx, self.size as int, den);
        let (y0, y1, fy) = axis_split(ny, self.size as int, den);
        self.height_at(x0, y0) * (den - fx) * (den - fy) + self.height_at(x1, y0) * fx * (den
            - fy) + self.height_at(x0, y1) * (den - fx) * fy + self.height_at(x1, y1) * fx * fy
    }

    /// The grid is well formed and has at least one sample, so it can be
    /// interpolated.
    pub open spec fn usable(&self) -> bool {
        self.wf() && self.size >= 1
    }

    /// Computes `usable()`.
    pub fn is_usable(&self) -> (r: bool)
        ensures
            r == self.usable(),
    {
        let len: usize = self.heights.len();
        match self.size.checked_mul(self.size) {
            Some(n) => self.size >= 1 && self.heights.len() == n,
            None => false,
        }
    }

    /// Lowest and highest sample; `(i16::MAX, i16::MIN)` for an empty grid.
    pub fn height_range(&self) -> (r: (i16, i16))
        ensures
            forall|i: int|
                0 <= i < self.heights@.len() ==> r.0 <= #[trigger] self.heights@[i] <= r.1,
            self.heights@.len() > 0 ==> self.heights@.contains(r.0) && self.heights@.contains(r.1),
            self.heights@.len() == 0 ==> r == (i16::MAX, i16::MIN),
    {
        let mut lo: i16 = i16::MAX;
        let mut hi: i16 = i16::MIN;
        let mut i: usize = 0;
        while i < self.heights.len()
            invariant
                i <= self.heights@.len(),
                forall|j: int| 0 <= j < i ==> lo <= #[trigger] self.heights@[j] <= hi,
                i > 0 ==> self.heights@.subrange(0, i as int).contains(lo)
                    && self.heights@.subrange(0, i as int).contains(hi),
                i == 0 ==> lo == i16::MAX && hi == i16::MIN,
            decreases self.heights@.len() - i,
        {
            let h = self.heights[i];
            let ghost prev = self.heights@.subrange(0, i as int);
            if i == 0 || h < lo {
                lo = h;
            }
            if i == 0 || h > hi {
                hi = h;
            }
            i = i + 1;
            proof {
                let cur = self.heights@.subrange(0, i as int);
                assert(cur =~= prev.push(h));
                if i > 1 {
                    if !(lo == h) {
                        let k = choose|k: int| 0 <= k < prev.len() && prev[k] == lo;
                        assert(cur[k] == lo);
                    }
                    if !(hi == h) {
                        let k = choose|k: int| 0 <= k < prev.len() && prev[k] == hi;
                        assert(cur[k] == hi);
                    }
                }
                assert(cur[i - 1] == h);
            }
        }
        proof {
            assert(self.heights@.subrange(0, i as int) =~= self.heights@);
        }
        (lo, hi)
    }

    /// A zero-filled `size`×`size` tile.
    pub fn new(coord: TileCoord, size: usize) -> (r: TileData)
        requires
            size * size <= usize::MAX,
        ensures
            r.wf(),
            r.coord == coord,
            r.size == size,
            forall|i: int| 0 <= i < r.heights@.len() ==> r.heights@[i] == 0,
    {
        let n: usize = size * size;
        TileData { coord, size, heights: vec![0i16; n] }
    }

    /// Sample at column `x`, row `y`, or `None` outside the grid.
    pub fn get_height(&self, x: usize, y: usize) -> (r: Option<i16>)
        requires
            self.wf(),
        ensures
            x < self.size && y < self.size ==> r == Some(self.heights@[y * self.size + x]),
            !(x < self.size && y < self.size) ==> r is None,
    {
        if x < self.size && y < self.size {
            let len: usize = self.heights.len();
            proof {
                lemma_grid_index(x as int, y as int, self.size as int);
            }
            Some(self.heights[y * self.size + x])
        } else {
            None
        }
    }

    /// Writes the sample at column `x`, row `y`; positions outside the grid
    /// leave the tile unchanged.
    pub fn set_height(&mut self, x: usize, y: usize, height: i16)
        requires
            old(self).wf(),
        ensures
            final(self).wf(),
            final(self).coord == old(self).coord,
            final(self).size == old(self).size,
            x < old(self).size && y < old(self).size ==> final(self).heights@ == old(
                self,
            ).heights@.update(y * old(self).size + x, height),
            !(x < old(self).size && y < old(self).size) ==> final(self).heights@ == old(
                self,
            ).heights@,
    {
        if x < self.size && y < self.size {
            let len: usize = self.heights.len();
            proof {
                lemma_grid_index(x as int, y as int, self.size as int);
            }
            let i: usize = y * self.size + x;
            self.heights.set(i, height);
        }
    }

    /// Bilinear interpolation at normalized position (`nx / den`, `ny / den`),
    /// where each coordinate is first clamped into [0, 1] and then mapped to
    /// pixel space [0, size - 1]. The result is the height in meters scaled by
    /// `den * den`, so it is exact.
    pub fn get_height_normalized(&self, nx: i64, ny: i64, den: u32) -> (r: i128)
        requires
            self.wf(),
            self.size >= 1,
            den > 0,
        ensures
            r == self.bilinear(nx as int, ny as int, den as int),
    {
        let (x0, x1, fx) = split_axis(nx, self.size, den);
        let (y0, y1, fy) = split_axis(ny, self.size, den);
        let len: usize = self.heights.len();
        proof {
            lemma_grid_index(x0 as int, y0 as int, self.size as int);
            lemma_grid_index(x1 as int, y0 as int, self.size as int);
            lemma_grid_index(x0 as int, y1 as int, self.size as int);
            lemma_grid_index(x1 as int, y1 as int, self.size as int);
        }
        let h00 = self.heights[y0 * self.size + x0] as i128;
        let h10 = self.heights[y0 * self.size + x1] as i128;
        let h01 = self.heights[y1 * self.size + x0] as i128;
        let h11 = self.heights[y1 * self.size + x1] as i128;
        let d = den as i128;
        let wx1 = fx as i128;
        let wy1 = fy as i128;
        let wx0 = d - wx1;
        let wy0 = d - wy1;
        proof {
            lemma_weighted_sample_bound(h00 as int, wx0 as int, wy0 as int);
            lemma_weighted_sample_bound(h10 as int, wx1 as int, wy0 as int);
            lemma_weighted_sample_bound(h01 as int, wx0 as int, wy1 as int);
            lemma_weighted_sample_bound(h11 as int, wx1 as int, wy1 as int);
        }
        h00 * wx0 * wy0 + h10 * wx1 * wy0 + h01 * wx0 * wy1 + h11 * wx1 * wy1
    }
}

/// Interpolated height, scaled by `den * den`, at world position
/// (`lat / den`, `lon / den`) degrees, read from `t` as the tile of cell `c`.
/// Row 0 is the northern edge, so the row coordinate runs from the top.
pub open spec fn world_sample(t: TileData, c: TileCoord, lat: int, lon: int, den: int) -> int {
    t.bilinear(lon - c.lon * den, den - (lat - c.lat * den), den)
}

/// Position (`lat / den`, `lon / den`) degrees lies in cell `c`.
pub open spec fn in_cell(c: TileCoord, lat: int, lon: int, den: int) -> bool {
    &&& c.lat * den <= lat < (c.lat + 1) * den
    &&& c.lon * den <= lon < (c.lon + 1) * den
}

impl TileData {
    /// Computes `world_sample(*self, *c, lat, lon, den)` for a position inside
    /// cell `c`.
    pub fn sample_world(&self, c: &TileCoord, lat: i128, lon: i128, den: u32) -> (r: i128)
        requires
            self.usable(),
            den > 0,
            in_cell(*c, lat as int, lon as int, den as int),
        ensures
            r == world_sample(*self, *c, lat as int, lon as int, den as int),
    {
        let d = den as i128;
        assert(-0x1_0000_0000_0000_0000 <= (c.lon as i128) * d <= 0x1_0000_0000_0000_0000)
            by (nonlinear_arith)
            requires
                -0x8000_0000 <= c.lon < 0x8000_0000,
                0 < d <= u32::MAX,
        ;
        assert(-0x1_0000_0000_0000_0000 <= (c.lat as i128) * d <= 0x1_0000_0000_0000_0000)
            by (nonlinear_arith)
            requires
                -0x8000_0000 <= c.lat < 0x8000_0000,
                0 < d <= u32::MAX,
        ;
        assert((c.lon + 1) * d == c.lon * d + d) by (nonlinear_arith);
        assert((c.lat + 1) * d == c.lat * d + d) by (nonlinear_arith);
        let nx = lon - (c.lon as i128) * d;
        let ny = d - (lat - (c.lat as i128) * d);
        self.get_height_normalized(nx as i64, ny as i64, den)
    }
}

/// Computes `axis_split(n, size, den)`.
fn split_axis(n: i64, size: usize, den: u32) -> (r: (usize, usize, u32))
    requires
        size >= 1,
        den > 0,
    ensures
        r.0 == axis_split(n as int, size as int, den as int).0,
        r.1 == axis_split(n as int, size as int, den as int).1,
        r.2 == axis_split(n as int, size as int, den as int).2,
        r.0 < size,
        r.1 < size,
        r.2 < den,
{
    let c: u128 = if n < 0 {
        0
    } else if n > den as i64 {
        den as u128
    } else {
        n as u128
    };
    let m: u128 = (size - 1) as u128;
    assert(c * m <= den * m) by (nonlinear_arith)
        requires
            c <= den,
            0 <= m,
    ;
    assert(c * m <= u32::MAX * usize::MAX) by (nonlinear_arith)
        requires
            c <= u32::MAX,
            0 <= m <= usize::MAX,
    ;
    let p: u128 = c * m;
    let q: u128 = p / (den as u128);
    let f: u128 = p % (den as u128);
    assert(q <= m) by (nonlinear_arith)
        requires
            q == p / (den as u128),
            p <= den * m,
            den > 0,
    ;
    let i0: usize = q as usize;
    let i1: usize = if i0 + 1 < size - 1 {
        i0 + 1
    } else {
        size - 1
    };
    (i0, i1, f as u32)
}

/// An interpolated value lies within the range of `i16`, scaled by `den^2`.
pub proof fn lemma_bilinear_bound(t: TileData, nx: int, ny: int, den: int)
    requires
        t.usable(),
        den > 0,
    ensures
        -32768 * (den * den) <= t.bilinear(nx, ny, den) <= 32767 * (den * den),
{
    let (x0, x1, fx) = axis_split(nx, t.size as int, den);
    let (y0, y1, fy) = axis_split(ny, t.size as int, den);
    vstd::arithmetic::div_mod::lemma_mod_bound(clamp_unit(nx, den) * (t.size - 1), den);
    vstd::arithmetic::div_mod::lemma_mod_bound(clamp_unit(ny, den) * (t.size - 1), den);
    let h00 = t.height_at(x0, y0);
    let h10 = t.height_at(x1, y0);
    let h01 = t.height_at(x0, y1);
    let h11 = t.height_at(x1, y1);
    assert(-32768 * (den * den) <= h00 * (den - fx) * (den - fy) + h10 * fx * (den - fy) + h01 * (
    den - fx) * fy + h11 * fx * fy <= 32767 * (den * den)) by (nonlinear_arith)
        requires
            0 <= fx < den,
            0 <= fy < den,
            -32768 <= h00 <= 32767,
            -32768 <= h10 <= 32767,
            -32768 <= h01 <= 32767,
            -32768 <= h11 <= 32767,
    ;
}

/// One term `h * wx * wy` of the interpolation stays far inside `i128`.
proof fn lemma_weighted_sample_bound(h: int, wx: int, wy: int)
    requires
        -32768 <= h <= 32767,
        0 <= wx <= u32::MAX,
        0 <= wy <= u32::MAX,
    ensures
        -0x1_0000_0000_0000_0000_0000 <= h * wx * wy <= 0x1_0000_0000_0000_0000_0000,
        -0x1_0000_0000_0000_0000_0000 <= h * wx <= 0x1_0000_0000_0000_0000_0000,
{
    assert(-0x1_0000_0000_0000_0000_0000 <= h * wx * wy <= 0x1_0000_0000_0000_0000_0000)
        by (nonlinear_arith)
        requires
            -32768 <= h <= 32767,
            0 <= wx <= u32::MAX,
            0 <= wy <= u32::MAX,
    ;
    assert(-0x1_0000_0000_0000_0000_0000 <= h * wx <= 0x1_0000_0000_0000_0000_0000)
        by (nonlinear_arith)
        requires
            -32768 <= h <= 32767,
            0 <= wx <= u32::MAX,
    ;
}

/// At a grid point (`x / (size - 1)`, `y / (size - 1)`) the interpolation
/// returns that sample exactly (scaled by `(size - 1)^2`).
pub proof fn lemma_interpolation_exact_at_grid_points(t: TileData, x: int, y: int)
    requires
        t.wf(),
        t.size >= 2,
        0 <= x < t.size,
        0 <= y < t.size,
    ensures
        t.bilinear(x, y, t.size - 1) == (t.size - 1) * (t.size - 1) * t.height_at(x, y),
{
    let d = t.size - 1;
    lemma_axis_at_grid_point(x, t.size as int);
    lemma_axis_at_grid_point(y, t.size as int);
    let (x0, x1, fx) = axis_split(x, t.size as int, d as int);
    let (y0, y1, fy) = axis_split(y, t.size as int, d as int);
    assert(x0 == x && fx == 0 && y0 == y && fy == 0);
    let h = t.height_at(x, y);
    assert(h * (d - 0) * (d - 0) == d * d * h) by (nonlinear_arith);
    let (a, b, c) = (t.height_at(x1, y0), t.height_at(x0, y1), t.height_at(x1, y1));
    assert(a * fx * (d - fy) == 0 && b * (d - fx) * fy == 0 && c * fx * fy == 0)
        by (nonlinear_arith)
        requires
            fx == 0,
            fy == 0,
    ;
}

proof fn lemma_axis_at_grid_point(i: int, size: int)
    requires
        size >= 2,
        0 <= i < size,
    ensures
        axis_split(i, size, size - 1).0 == i,
        axis_split(i, size, size - 1).2 == 0,
{
    vstd::arithmetic::div_mod::lemma_div_multiples_vanish(i, size - 1);
    vstd::arithmetic::div_mod::lemma_mod_multiples_basic(i, size - 1);
    assert(i * (size - 1) == (size - 1) * i) by (nonlinear_arith);
}

/// A cell index `y * size + x` of a `size`×`size` grid lies inside it.
pub proof fn lemma_grid_index(x: int, y: int, size: int)
    requires
        0 <= x < size,
        0 <= y < size,
    ensures
        0 <= y * size <= y * size + x < size * size,
{
    assert(y * size + x < size * size) by (nonlinear_arith)
        requires
            0 <= x < size,
            0 <= y < size,
    ;
    assert(0 <= y * size) by (nonlinear_arith)
        requires
            0 <= y,
            0 <= size,
    ;
}

} // verus!
