//! Sparse grid of 1°×1° elevation tiles with an in-memory cache, the raw
//! big-endian tile format, and a terrain-aware radar line-of-sight engine.
//!
//! Positions are integers: latitude and longitude in milliarcseconds
//! (3_600_000 per degree, so one sample of a 3601×3601 tile spans exactly
//! 1000 of them), altitudes and distances in centimeters, terrain heights in
//! meters. Interpolated heights are exact rationals; the library rounds only
//! where it reports millimeters.
pub mod cache;
pub mod decimal;
pub mod downloader;
pub mod hgt;
pub mod radar;
pub mod tile;

pub use cache::{TileCache, TileSnapshot};
pub use downloader::{CoverageAction, DownloadRequest, DownloadResult};
pub use hgt::{decode_tile, encode_tile, LoadError, TILE_BYTES, TILE_SIZE};
pub use radar::{
    raymarch_steps, within_radio_horizon, PathGeometry, Radar, Radars, MAX_SURFACE_CM,
};
pub use tile::{TileCoord, TileData, TileState, MAS_PER_DEGREE};
