use srtm_los::{decode_tile, encode_tile, LoadError, TileCoord, TileData, TILE_BYTES, TILE_SIZE};

#[test]
fn stored_tile_round_trips_byte_for_byte() {
    let coord = TileCoord::new(43, 7);
    let mut tile = TileData::new(coord, TILE_SIZE);
    for (i, h) in tile.heights.iter_mut().enumerate() {
        *h = ((i * 7919) % 65536) as u16 as i16;
    }
    let bytes = encode_tile(&tile);
    assert_eq!(bytes.len(), TILE_BYTES);
    let back = decode_tile(coord, &bytes).unwrap();
    assert_eq!(back.size, TILE_SIZE);
    assert_eq!(back.heights, tile.heights);
    assert_eq!(encode_tile(&back), bytes);
}

#[test]
fn wrong_length_is_a_size_mismatch() {
    let coord = TileCoord::new(0, 0);
    for len in [0usize, 1, TILE_BYTES - 1, TILE_BYTES + 1, 2 * 1201 * 1201] {
        let bytes = vec![0u8; len];
        assert_eq!(
            decode_tile(coord, &bytes),
            Err(LoadError::SizeMismatch { expected: TILE_BYTES, actual: len })
        );
    }
}

#[test]
fn samples_are_big_endian_and_signed() {
    let mut bytes = vec![0u8; TILE_BYTES];
    bytes[0] = 0x01;
    bytes[1] = 0x02;
    bytes[2] = 0xFF;
    bytes[3] = 0xFE;
    bytes[TILE_BYTES - 2] = 0x80;
    bytes[TILE_BYTES - 1] = 0x00;
    let t = decode_tile(TileCoord::new(0, 0), &bytes).unwrap();
    assert_eq!(t.get_height(0, 0), Some(258));
    assert_eq!(t.get_height(1, 0), Some(-2));
    assert_eq!(t.get_height(TILE_SIZE - 1, TILE_SIZE - 1), Some(i16::MIN));
}

#[test]
fn encoding_writes_high_byte_first() {
    let mut t = TileData::new(TileCoord::new(0, 0), 2);
    t.set_height(0, 0, 258);
    t.set_height(1, 0, -2);
    t.set_height(0, 1, i16::MIN);
    assert_eq!(encode_tile(&t), vec![0x01, 0x02, 0xFF, 0xFE, 0x80, 0x00, 0x00, 0x00]);
}

#[test]
fn load_error_messages() {
    let e = LoadError::SizeMismatch { expected: TILE_BYTES, actual: 12 };
    assert_eq!(e.message(), "Invalid tile size: expected 25934402 bytes, got 12");
    assert_eq!(
        LoadError::FileNotFound("assets/N00E000.hgt".to_string()).message(),
        "Tile file not found: assets/N00E000.hgt"
    );
    assert_eq!(LoadError::ParseError("eof".to_string()).message(), "Failed to parse tile: eof");
}
