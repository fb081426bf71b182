use crate::cache::TileCache;
use crate::hgt::{message_text, LoadError};
use crate::tile::{TileCoord, TileData, TileState};
use std::sync::Arc;
use vstd::prelude::*;

verus! {

/// Asks the download worker for one tile.
#[derive(Debug, Clone, Copy)]
pub struct DownloadRequest {
    pub coord: TileCoord,
}

/// The worker's one answer to a request.
#[derive(Debug)]
pub enum DownloadResult {
    /// The tile was fetched.
    Success(TileData),
    /// The tile is confirmed absent upstream.
    Missing(TileCoord),
    /// The fetch failed, for the given reason.
    Error(TileCoord, String),
}

/// What the coverage policy decided for one coordinate.
#[derive(Debug, Clone, Copy, PartialEq, Eq, Structural)]
pub enum CoverageAction {
    /// A state is already recorded: nothing to do.
    Skip,
    /// The tile is on disk: load it now and hand the outcome to
    /// `finish_disk_load`.
    LoadFromDisk,
    /// The tile was marked `Loading`: submit a download request for it.
    RequestDownload,
}

impl TileCache {
    /// Coverage policy for one coordinate of interest, given whether the
    /// disk store holds its file: skip it if any state exists, else load it
    /// from disk if present, else mark it `Loading` (so no second request is
    /// ever made while one is in flight) and have it downloaded.
    pub fn begin_coverage(&mut self, coord: TileCoord, on_disk: bool) -> (r: CoverageAction)
        ensures
            old(self)@.contains_key(coord) ==> (r == CoverageAction::Skip && final(self)@ == old(self)@),
            !old(self)@.contains_key(coord) && on_disk ==> (r == CoverageAction::LoadFromDisk
                && final(self)@ == old(self)@),
            !old(self)@.contains_key(coord) && !on_disk ==> (r == CoverageAction::RequestDownload
                && final(self)@ == old(self)@.insert(coord, TileState::Loading)),
    {
        if self.has_tile(&coord) {
            CoverageAction::Skip
        } else if on_disk {
            CoverageAction::LoadFromDisk
        } else {
            self.mark_loading(coord);
            CoverageAction::RequestDownload
        }
    }

    /// Records the outcome of a disk load: the data, or the error's message.
    pub fn finish_disk_load(&mut self, coord: TileCoord, loaded: Result<TileData, LoadError>)
        ensures
            (loaded matches Ok(t) ==> final(self)@ == old(self)@.insert(coord, TileState::Loaded(Arc::new(t)))),
            (loaded matches Err(e) ==> final(self)@ == old(self)@.insert(coord, final(self)@[coord])
                && (final(self)@[coord] matches TileState::Error(m) && m@ == message_text(e))),
    {
        match loaded {
            Ok(t) => self.insert_data(coord, t),
            Err(e) => self.insert_tile(coord, TileState::Error(e.message())),
        }
    }

    /// Applies a worker's answer as the terminal state of its tile and
    /// returns the fetched data, which the caller persists to disk.
    pub fn apply_download(&mut self, result: DownloadResult) -> (r: Option<Arc<TileData>>)
        ensures
            match result {
                DownloadResult::Success(t) => r == Some(Arc::new(t)) && final(self)@ == old(self)@.insert(t.coord, TileState::Loaded(Arc::new(t))),
                DownloadResult::Missing(c) => r is None && final(self)@ == old(self)@.insert(c, TileState::Missing),
                DownloadResult::Error(c, m) => r is None && final(self)@ == old(self)@.insert(c, TileState::Error(m)),
            },
    {
        match result {
            DownloadResult::Success(t) => {
                let coord = t.coord;
                let data = Arc::new(t);
                let kept = crate::cache::share(&data);
                self.insert_tile(coord, TileState::Loaded(data));
                Some(kept)
            },
            DownloadResult::Missing(c) => {
                self.insert_tile(c, TileState::Missing);
                None
            },
            DownloadResult::Error(c, m) => {
                self.insert_tile(c, TileState::Error(m));
                None
            },
        }
    }
}

} // verus!
