use crate::decimal::{decimal, push_decimal};
use crate::tile::{TileCoord, TileData};
use byteorder::{BigEndian, ByteOrder};
use vstd::prelude::*;

verus! {

/// Samples per row and per column of a stored tile.
pub const TILE_SIZE: usize = 3601;

/// Length of a stored tile: two bytes per sample, no header.
pub const TILE_BYTES: usize = 25_934_402;

/// The sample stored big-endian in bytes `hi`, `lo`.
pub open spec fn be_i16(hi: u8, lo: u8) -> i16 {
    let u = hi as int * 256 + lo as int;
    (if u >= 32768 {
        u - 65536
    } else {
        u
    }) as i16
}

/// `h` as an unsigned 16-bit pattern.
pub open spec fn bits16(h: i16) -> int {
    if h < 0 {
        h + 65536
    } else {
        h as int
    }
}

/// The byte stored first for sample `h`.
pub open spec fn high_byte(h: i16) -> u8 {
    (bits16(h) / 256) as u8
}

/// The byte stored second for sample `h`.
pub open spec fn low_byte(h: i16) -> u8 {
    (bits16(h) % 256) as u8
}

/// Samples read from `b`, two bytes each, big-endian, in order.
pub open spec fn decode_samples(b: Seq<u8>) -> Seq<i16> {
    Seq::new(b.len() / 2, |k: int| be_i16(b[2 * k], b[2 * k + 1]))
}

/// Bytes written for the samples `hs`, two each, big-endian, in order.
pub open spec fn encode_samples(hs: Seq<i16>) -> Seq<u8> {
    Seq::new(
        2 * hs.len(),
        |j: int|
            if j % 2 == 0 {
                high_byte(hs[j / 2])
            } else {
                low_byte(hs[j / 2])
            },
    )
}

/// Reading back the two bytes written for a sample gives that sample.
pub proof fn lemma_sample_bytes_round_trip(h: i16)
    ensures
        be_i16(high_byte(h), low_byte(h)) == h,
{
    let u = bits16(h);
    vstd::arithmetic::div_mod::lemma_fundamental_div_mod(u, 256);
    vstd::arithmetic::div_mod::lemma_mod_bound(u, 256);
    assert(0 <= u / 256 < 256) by {
        vstd::arithmetic::div_mod::lemma_div_is_ordered(0, u, 256);
        vstd::arithmetic::div_mod::lemma_div_is_ordered(u, 65535, 256);
    }
    assert(high_byte(h) as int * 256 + low_byte(h) as int == u);
}

/// Saving a full tile and loading the bytes back reproduces its samples
/// exactly, and the saved form has the one length that loading accepts.
pub proof fn lemma_disk_round_trip(t: TileData)
    requires
        t.wf(),
        t.size == TILE_SIZE,
    ensures
        encode_samples(t.heights@).len() == TILE_BYTES,
        decode_samples(encode_samples(t.heights@)) == t.heights@,
{
    let hs = t.heights@;
    let b = encode_samples(hs);
    assert forall|k: int| 0 <= k < hs.len() implies #[trigger] decode_samples(b)[k] == hs[k] by {
        assert((2 * k) % 2 == 0 && (2 * k) / 2 == k);
        assert((2 * k + 1) % 2 == 1 && (2 * k + 1) / 2 == k);
        lemma_sample_bytes_round_trip(hs[k]);
    }
    assert(decode_samples(b) =~= hs);
}

/// Relies on byteorder's `BigEndian::read_i16_into`: sample `k` is read
/// from bytes `2k` and `2k + 1`, high byte first; it panics unless the byte
/// slice is exactly twice as long as the destination.
#[verifier::external_body]
fn read_be_samples(src: &[u8], n: usize) -> (r: Vec<i16>)
    requires
        src@.len() == 2 * n,
    ensures
        r@ == decode_samples(src@),
{
    let mut dst = vec![0i16; n];
    BigEndian::read_i16_into(src, &mut dst);
    dst
}

/// Relies on byteorder's `BigEndian::write_i16_into`: sample `k` is written
/// to bytes `2k` and `2k + 1`, high byte first; it panics unless the byte
/// buffer is exactly twice as long as the samples.
#[verifier::external_body]
fn write_be_samples(src: &[i16], nbytes: usize) -> (r: Vec<u8>)
    requires
        nbytes == 2 * src@.len(),
    ensures
        r@ == encode_samples(src@),
{
    let mut dst = vec![0u8; nbytes];
    BigEndian::write_i16_into(src, &mut dst);
    dst
}

/// Why a stored tile could not be loaded.
#[derive(Debug, Clone, PartialEq, Eq)]
pub enum LoadError {
    /// No file for the tile exists; holds its path.
    FileNotFound(String),
    /// The file is not exactly `expected` bytes long.
    SizeMismatch { expected: usize, actual: usize },
    /// The file could not be read or parsed; holds the reason.
    ParseError(String),
}

/// The text that describes `e`.
pub open spec fn message_text(e: LoadError) -> Seq<char> {
    match e {
        LoadError::FileNotFound(path) => "Tile file not found: "@ + path@,
        LoadError::SizeMismatch { expected, actual } => "Invalid tile size: expected "@ + decimal(
            expected as nat,
        ) + " bytes, got "@ + decimal(actual as nat),
        LoadError::ParseError(reason) => "Failed to parse tile: "@ + reason@,
    }
}

impl LoadError {
    /// Human-readable text, as recorded in an `Error` tile state.
    pub fn message(&self) -> (r: String)
        ensures
            r@ == message_text(*self),
    {
        match self {
            LoadError::FileNotFound(path) => {
                let mut s = String::from_str("Tile file not found: ");
                s.append(path.as_str());
                s
            },
            LoadError::SizeMismatch { expected, actual } => {
                let mut s = String::from_str("Invalid tile size: expected ");
                push_decimal(&mut s, *expected as u64);
                s.append(" bytes, got ");
                push_decimal(&mut s, *actual as u64);
                s
            },
            LoadError::ParseError(reason) => {
                let mut s = String::from_str("Failed to parse tile: ");
                s.append(reason.as_str());
                s
            },
        }
    }
}

/// Parses the contents of a stored tile for `coord`. Any length but
/// `TILE_BYTES` is rejected before a single sample is read.
pub fn decode_tile(coord: TileCoord, bytes: &[u8]) -> (r: Result<TileData, LoadError>)
    ensures
        bytes@.len() == TILE_BYTES ==> (r matches Ok(t) && t.coord == coord && t.size == TILE_SIZE
            && t.heights@ == decode_samples(bytes@) && t.wf()),
        bytes@.len() != TILE_BYTES ==> r == Err::<TileData, LoadError>(
            LoadError::SizeMismatch { expected: TILE_BYTES, actual: bytes@.len() as usize },
        ),
{
    if bytes.len() != TILE_BYTES {
        return Err(LoadError::SizeMismatch { expected: TILE_BYTES, actual: bytes.len() });
    }
    let heights = read_be_samples(bytes, TILE_SIZE * TILE_SIZE);
    Ok(TileData { coord, size: TILE_SIZE, heights })
}

/// The stored form of a tile: its samples verbatim, big-endian, row-major.
pub fn encode_tile(tile: &TileData) -> (r: Vec<u8>)
    requires
        2 * tile.heights@.len() <= usize::MAX,
    ensures
        r@ == encode_samples(tile.heights@),
{
    write_be_samples(tile.heights.as_slice(), 2 * tile.heights.len())
}

} // verus!
