use crate::tile::{
    cell_of, in_grid, lemma_bilinear_bound, lemma_in_own_cell, world_sample, TileCoord, TileData,
    TileState, MAS_PER_DEGREE,
};
use std::collections::HashMap;
use std::sync::Arc;
use vstd::prelude::*;

verus! {

broadcast use vstd::std_specs::hash::group_hash_axioms;

/// Offset that makes `coord_key` cover `i64` exactly.
pub const LON_BIAS: i64 = 0x8000_0000;

/// One past the largest biased longitude.
pub const LON_SPAN: i64 = 0x1_0000_0000;

/// Integer key of a coordinate: a bijection between `TileCoord` and `i64`.
pub open spec fn coord_key(c: TileCoord) -> int {
    c.lat * LON_SPAN + c.lon + LON_BIAS
}

/// The coordinate whose key is `k`.
pub open spec fn key_coord(k: int) -> TileCoord {
    TileCoord { lat: (k / (LON_SPAN as int)) as i32, lon: (k % (LON_SPAN as int) - LON_BIAS) as i32 }
}

/// `coord_key` and `key_coord` are inverse to each other on `i64`.
pub proof fn lemma_coord_key_bijective(c: TileCoord, k: i64)
    ensures
        i64::MIN <= coord_key(c) <= i64::MAX,
        key_coord(coord_key(c)) == c,
        coord_key(key_coord(k as int)) == k,
        i32::MIN <= k as int / (LON_SPAN as int) <= i32::MAX,
        0 <= k as int % (LON_SPAN as int) < LON_SPAN,
{
    let s = LON_SPAN as int;
    let b = c.lon + LON_BIAS;
    vstd::arithmetic::div_mod::lemma_div_multiples_vanish_fancy(c.lat as int, b, s);
    vstd::arithmetic::div_mod::lemma_fundamental_div_mod(coord_key(c), s);
    vstd::arithmetic::div_mod::lemma_fundamental_div_mod(k as int, s);
    assert(s * c.lat + b == coord_key(c));
    assert(0 <= k as int % s < s);
    vstd::arithmetic::div_mod::lemma_div_multiples_vanish_fancy(-0x8000_0000, 0, s);
    vstd::arithmetic::div_mod::lemma_div_multiples_vanish_fancy(0x7fff_ffff, s - 1, s);
    assert(i64::MIN as int / s == -0x8000_0000);
    assert(i64::MAX as int / s == 0x7fff_ffff);
    vstd::arithmetic::div_mod::lemma_div_is_ordered(i64::MIN as int, k as int, s);
    vstd::arithmetic::div_mod::lemma_div_is_ordered(k as int, i64::MAX as int, s);
}

/// Computes `coord_key(c)`.
fn tile_key(c: &TileCoord) -> (r: i64)
    ensures
        r == coord_key(*c),
{
    proof {
        lemma_coord_key_bijective(*c, 0);
    }
    (c.lat as i64) * LON_SPAN + (c.lon as i64 + LON_BIAS)
}

/// Computes `key_coord(k)`.
fn key_to_coord(k: i64) -> (r: TileCoord)
    ensures
        r == key_coord(k as int),
{
    proof {
        lemma_coord_key_bijective(TileCoord { lat: 0, lon: 0 }, k);
    }
    let lat = match k.checked_div_euclid(LON_SPAN) {
        Some(q) => q as i32,
        None => 0,
    };
    let lon = match k.checked_rem_euclid(LON_SPAN) {
        Some(m) => (m - LON_BIAS) as i32,
        None => 0,
    };
    TileCoord { lat, lon }
}

/// The tiles of `m` that are loaded, with their data.
pub open spec fn loaded_of(m: Map<TileCoord, TileState>) -> Map<TileCoord, Arc<TileData>> {
    Map::new(|c: TileCoord| m.contains_key(c) && m[c] is Loaded, |c: TileCoord| m[c]->Loaded_0)
}

/// Height in millimeters, rounded down, at world position (`lat`, `lon`)
/// milliarcseconds, read from `t` as the tile of the cell holding it.
pub open spec fn height_mm(t: TileData, lat: int, lon: int) -> int {
    let m = MAS_PER_DEGREE as int;
    (1000 * world_sample(t, cell_of(lat, lon), lat, lon, m)) / (m * m)
}

/// What a height query at (`lat`, `lon`) milliarcseconds answers over the
/// loaded tiles `tiles`: nothing unless the cell holding it is loaded with a
/// usable grid.
pub open spec fn height_query(tiles: Map<TileCoord, Arc<TileData>>, lat: int, lon: int) -> Option<
    int,
> {
    let c = cell_of(lat, lon);
    if tiles.contains_key(c) && (*tiles[c]).usable() {
        Some(height_mm(*tiles[c], lat, lon))
    } else {
        None
    }
}

/// Computes `height_mm(*t, lat, lon)`.
fn tile_height_mm(t: &TileData, c: &TileCoord, lat: i64, lon: i64) -> (r: i64)
    requires
        t.usable(),
        in_grid(lat as int),
        in_grid(lon as int),
        *c == cell_of(lat as int, lon as int),
    ensures
        r == height_mm(*t, lat as int, lon as int),
{
    let ghost m = MAS_PER_DEGREE as int;
    proof {
        lemma_in_own_cell(lat as int, lon as int, m);
        lemma_bilinear_bound(
            *t,
            lon - c.lon * m,
            m - (lat - c.lat * m),
            m,
        );
    }
    let v = t.sample_world(c, lat as i128, lon as i128, MAS_PER_DEGREE as u32);
    let scale: i128 = (MAS_PER_DEGREE as i128) * (MAS_PER_DEGREE as i128);
    match (1000 * v).checked_div_euclid(scale) {
        Some(q) => q as i64,
        None => 0,
    }
}

/// Marking a tile `Loading` and then recording a terminal state for it
/// leaves exactly that terminal state, with no `Loading` left behind, and
/// every other tile as it was.
pub proof fn lemma_terminal_state_replaces_loading(
    m: Map<TileCoord, TileState>,
    c: TileCoord,
    terminal: TileState,
)
    requires
        !(terminal is Loading),
    ensures
        m.insert(c, TileState::Loading).insert(c, terminal) == m.insert(c, terminal),
        m.insert(c, TileState::Loading).insert(c, terminal)[c] == terminal,
        !(m.insert(c, TileState::Loading).insert(c, terminal)[c] is Loading),
        forall|d: TileCoord|
            d != c ==> (#[trigger] m.insert(c, TileState::Loading).insert(c, terminal).contains_key(d)
                == m.contains_key(d)) && (m.contains_key(d) ==> m.insert(
                c,
                TileState::Loading,
            ).insert(c, terminal)[d] == m[d]),
{
    assert(m.insert(c, TileState::Loading).insert(c, terminal) =~= m.insert(c, terminal));
}

/// What is read through a snapshot depends only on the cache as it was when
/// the snapshot was taken: whatever the live cache holds afterwards
/// (`later`), a height query through the snapshot answers as the loaded
/// tiles of that earlier state do.
pub proof fn lemma_snapshot_isolation(
    taken: Map<TileCoord, TileState>,
    later: Map<TileCoord, TileState>,
    snap: Map<TileCoord, Arc<TileData>>,
    lat: int,
    lon: int,
)
    requires
        snap == loaded_of(taken),
    ensures
        height_query(snap, lat, lon) == height_query(loaded_of(taken), lat, lon),
        loaded_of(later) != loaded_of(taken) ==> snap != loaded_of(later),
{
}

/// Coordinate → state map of every tile that has been referenced.
pub struct TileCache {
    tiles: HashMap<i64, TileState>,
}

/// The state recorded for each referenced coordinate.
impl View for TileCache {
    type V = Map<TileCoord, TileState>;

    closed spec fn view(&self) -> Map<TileCoord, TileState> {
        Map::new(
            |c: TileCoord| self.tiles@.contains_key(coord_key(c) as i64),
            |c: TileCoord| self.tiles@[coord_key(c) as i64],
        )
    }
}

/// An immutable point-in-time copy of the loaded tiles of a cache. It holds
/// shared handles, so taking one never copies elevation data.
#[derive(Clone)]
pub struct TileSnapshot {
    tiles: HashMap<i64, Arc<TileData>>,
}

/// The data of each coordinate that was loaded when the snapshot was taken.
impl View for TileSnapshot {
    type V = Map<TileCoord, Arc<TileData>>;

    closed spec fn view(&self) -> Map<TileCoord, Arc<TileData>> {
        Map::new(
            |c: TileCoord| self.tiles@.contains_key(coord_key(c) as i64),
            |c: TileCoord| self.tiles@[coord_key(c) as i64],
        )
    }
}

/// Relies on `Arc::clone`: a second handle to the same value.
#[verifier::external_body]
pub(crate) fn share(d: &Arc<TileData>) -> (r: Arc<TileData>)
    ensures
        r == *d,
{
    Arc::clone(d)
}

/// After storing `v` under `coord_key(c)`, the coordinate view of `m`
/// changes at `c` alone.
proof fn lemma_insert_view<V>(m: Map<i64, V>, c: TileCoord, v: V)
    ensures
        Map::new(
            |d: TileCoord| m.insert(coord_key(c) as i64, v).contains_key(coord_key(d) as i64),
            |d: TileCoord| m.insert(coord_key(c) as i64, v)[coord_key(d) as i64],
        ) =~= Map::new(
            |d: TileCoord| m.contains_key(coord_key(d) as i64),
            |d: TileCoord| m[coord_key(d) as i64],
        ).insert(c, v),
{
    assert forall|d: TileCoord| coord_key(d) as i64 == coord_key(c) as i64 implies d == c by {
        lemma_coord_key_bijective(d, 0);
        lemma_coord_key_bijective(c, 0);
    }
}

impl TileSnapshot {
    /// The shared handle of `coord`'s data, if the snapshot holds it.
    pub fn get(&self, coord: &TileCoord) -> (r: Option<&Arc<TileData>>)
        ensures
            self@.contains_key(*coord) ==> r == Some(&self@[*coord]),
            !self@.contains_key(*coord) ==> r is None,
    {
        let k = tile_key(coord);
        self.tiles.get(&k)
    }

    /// Height in millimeters (rounded down) at (`lat`, `lon`)
    /// milliarcseconds, or `None` where the snapshot has no data.
    pub fn get_height_global(&self, lat: i64, lon: i64) -> (r: Option<i64>)
        requires
            in_grid(lat as int),
            in_grid(lon as int),
        ensures
            r matches Some(h) ==> height_query(self@, lat as int, lon as int) == Some(h as int),
            r is None ==> height_query(self@, lat as int, lon as int) is None,
    {
        let c = TileCoord::from_world_coords(lat, lon);
        match self.get(&c) {
            Some(d) => {
                if d.is_usable() {
                    Some(tile_height_mm(d, &c, lat, lon))
                } else {
                    None
                }
            },
            None => None,
        }
    }
}

impl TileCache {
    /// An empty cache.
    pub fn new() -> (r: TileCache)
        ensures
            r@ == Map::<TileCoord, TileState>::empty(),
    {
        let r = TileCache { tiles: HashMap::new() };
        assert(r@ =~= Map::<TileCoord, TileState>::empty());
        r
    }

    /// Whether any state is recorded for `coord`.
    pub fn has_tile(&self, coord: &TileCoord) -> (r: bool)
        ensures
            r == self@.contains_key(*coord),
    {
        let k = tile_key(coord);
        self.tiles.contains_key(&k)
    }

    /// The state recorded for `coord`.
    pub fn get_tile(&self, coord: &TileCoord) -> (r: Option<&TileState>)
        ensures
            self@.contains_key(*coord) ==> r == Some(&self@[*coord]),
            !self@.contains_key(*coord) ==> r is None,
    {
        let k = tile_key(coord);
        self.tiles.get(&k)
    }

    /// Records `state` for `coord`, replacing whatever was there.
    pub fn insert_tile(&mut self, coord: TileCoord, state: TileState)
        ensures
            final(self)@ == old(self)@.insert(coord, state),
    {
        let k = tile_key(&coord);
        proof {
            lemma_insert_view(self.tiles@, coord, state);
        }
        self.tiles.insert(k, state);
    }

    /// Records `data` as the loaded state of `coord`.
    pub fn insert_data(&mut self, coord: TileCoord, data: TileData)
        ensures
            final(self)@ == old(self)@.insert(coord, TileState::Loaded(Arc::new(data))),
    {
        self.insert_tile(coord, TileState::Loaded(Arc::new(data)));
    }

    /// Records that a download of `coord` is in flight.
    pub fn mark_loading(&mut self, coord: TileCoord)
        ensures
            final(self)@ == old(self)@.insert(coord, TileState::Loading),
    {
        self.insert_tile(coord, TileState::Loading);
    }

    /// The loaded subset of the cache, as shared handles: later changes to
    /// the cache do not reach the snapshot.
    pub fn get_snapshot(&self) -> (r: TileSnapshot)
        ensures
            r@ == loaded_of(self@),
    {
        let mut out: HashMap<i64, Arc<TileData>> = HashMap::new();
        let ghost entries = vstd::std_specs::iter::IteratorSpec::remaining(&vstd::std_specs::hash::spec_hash_map_iter(&self.tiles));
        let ghost mut done: int = 0;
        for entry in it: self.tiles.iter()
            invariant
                it.seq() == entries,
                done == it.index(),
                forall|j: int|
                    #![trigger entries[j]]
                    0 <= j < done ==> (*entries[j].1 is Loaded ==> out@.contains_key(
                        *entries[j].0,
                    )),
                forall|k: i64|
                    #![trigger out@.contains_key(k)]
                    out@.contains_key(k) ==> self.tiles@.contains_key(k) && self.tiles@[k] is Loaded
                        && out@[k] == self.tiles@[k]->Loaded_0,
                forall|j: int|
                    #![trigger it.seq()[j]]
                    0 <= j < it.index() ==> (*it.seq()[j].1 is Loaded ==> out@.contains_key(
                        *it.seq()[j].0,
                    )),
        {
            let (k, st) = entry;
            match st {
                TileState::Loaded(d) => {
                    out.insert(*k, share(d));
                },
                _ => {},
            }
            proof {
                done = done + 1;
            }
        }
        let r = TileSnapshot { tiles: out };
        assert forall|c: TileCoord| #[trigger] loaded_of(self@).contains_key(c) implies r@.contains_key(c) by {
            let k = coord_key(c) as i64;
            assert(self.tiles@.contains_key(k));
            assert(entries.contains((&k, &self.tiles@[k])));
            let j = choose|j: int| 0 <= j < entries.len() && entries[j] == (&k, &self.tiles@[k]);
            assert(*entries[j].0 == k);
        }
        assert(r@ =~= loaded_of(self@));
        r
    }

    /// Height in millimeters (rounded down) at (`lat`, `lon`)
    /// milliarcseconds, or `None` unless the cell holding it is loaded.
    pub fn get_height_global(&self, lat: i64, lon: i64) -> (r: Option<i64>)
        requires
            in_grid(lat as int),
            in_grid(lon as int),
        ensures
            r matches Some(h) ==> height_query(loaded_of(self@), lat as int, lon as int) == Some(
                h as int,
            ),
            r is None ==> height_query(loaded_of(self@), lat as int, lon as int) is None,
    {
        let c = TileCoord::from_world_coords(lat, lon);
        match self.get_tile(&c) {
            Some(TileState::Loaded(d)) => {
                if d.is_usable() {
                    Some(tile_height_mm(d, &c, lat, lon))
                } else {
                    None
                }
            },
            _ => None,
        }
    }

    /// Every loaded tile with its coordinate, each once, in no particular
    /// order.
    pub fn loaded_tiles(&self) -> (r: Vec<(TileCoord, &TileData)>)
        ensures
            forall|i: int|
                0 <= i < r@.len() ==> loaded_of(self@).contains_key(#[trigger] r@[i].0) && *r@[i].1
                    == *loaded_of(self@)[r@[i].0],
            forall|c: TileCoord|
                #[trigger] loaded_of(self@).contains_key(c) ==> exists|i: int|
                    0 <= i < r@.len() && r@[i].0 == c,
    {
        let mut out: Vec<(TileCoord, &TileData)> = Vec::new();
        let ghost entries = vstd::std_specs::iter::IteratorSpec::remaining(
            &vstd::std_specs::hash::spec_hash_map_iter(&self.tiles),
        );
        let ghost mut done: int = 0;
        for entry in it: self.tiles.iter()
            invariant
                it.seq() == entries,
                done == it.index(),
                forall|i: int|
                    0 <= i < out@.len() ==> loaded_of(self@).contains_key(#[trigger] out@[i].0)
                        && *out@[i].1 == *loaded_of(self@)[out@[i].0],
                forall|j: int|
                    #![trigger entries[j]]
                    0 <= j < done ==> (*entries[j].1 is Loaded ==> exists|i: int|
                        0 <= i < out@.len() && out@[i].0 == key_coord(*entries[j].0 as int)),
        {
            let ghost before = out@;
            let (k, st) = entry;
            match st {
                TileState::Loaded(d) => {
                    let c = key_to_coord(*k);
                    proof {
                        lemma_coord_key_bijective(c, *k);
                    }
                    out.push((c, &**d));
                    proof {
                        assert(out@[out@.len() - 1].0 == c);
                    }
                },
                _ => {},
            }
            proof {
                assert(entries[done] == entry);
                assert forall|j: int|
                    0 <= j < done + 1 && *#[trigger] entries[j].1 is Loaded implies exists|i: int|
                        0 <= i < out@.len() && out@[i].0 == key_coord(*entries[j].0 as int) by {
                    if j < done {
                        let i = choose|i: int|
                            0 <= i < before.len() && before[i].0 == key_coord(*entries[j].0 as int);
                        assert(out@[i] == before[i]);
                    } else {
                        assert(out@[out@.len() - 1].0 == key_coord(*entries[j].0 as int));
                    }
                }
                done = done + 1;
            }
        }
        assert forall|c: TileCoord| #[trigger] loaded_of(self@).contains_key(c) implies exists|i: int|
            0 <= i < out@.len() && out@[i].0 == c by {
            let k = coord_key(c) as i64;
            lemma_coord_key_bijective(c, k);
            assert(entries.contains((&k, &self.tiles@[k])));
            let j = choose|j: int| 0 <= j < entries.len() && entries[j] == (&k, &self.tiles@[k]);
            assert(*entries[j].0 == k);
        }
        out
    }

    /// Drops every in-memory entry; tiles on disk are not touched.
    pub fn clear_memory(&mut self)
        ensures
            final(self)@ == Map::<TileCoord, TileState>::empty(),
    {
        self.tiles.clear();
        assert(self@ =~= Map::<TileCoord, TileState>::empty());
    }
}

} // verus!
