use minesweeper::tileset::{cut_tiles, TILE_BYTES, TILE_SIZE};

/// A sheet of `width` by `height` pixels of `pixel` bytes each, every byte
/// telling where it lies.
fn sheet(width: u32, height: u32, pixel: u32) -> Vec<u8> {
    let mut data = Vec::new();
    for y in 0..height {
        for x in 0..width {
            for c in 0..pixel {
                data.push(((x * 7 + y * 13 + c * 101) % 251) as u8);
            }
        }
    }
    data
}

fn expected(x: u32, y: u32, c: u32) -> u8 {
    ((x * 7 + y * 13 + c * 101) % 251) as u8
}

#[test]
fn tile_constants_agree() {
    assert_eq!(TILE_SIZE, (128, 128));
    assert_eq!(TILE_BYTES, 128 * 128 * 4);
}

#[test]
fn cut_tiles_of_a_single_tile() {
    let data = sheet(128, 128, 3);
    let tiles = cut_tiles(&data, 128, 128, 384).unwrap();
    assert_eq!(tiles.len(), 1);
    assert_eq!(tiles[0].len(), TILE_BYTES);
    for y in 0..128u32 {
        for x in 0..128u32 {
            let at = ((y * 128 + x) * 4) as usize;
            assert_eq!(tiles[0][at], expected(x, y, 0));
            assert_eq!(tiles[0][at + 1], expected(x, y, 1));
            assert_eq!(tiles[0][at + 2], expected(x, y, 2));
            assert_eq!(tiles[0][at + 3], 255);
        }
    }
}

#[test]
fn cut_tiles_row_by_row() {
    let data = sheet(384, 256, 3);
    let tiles = cut_tiles(&data, 384, 256, 384 * 3).unwrap();
    assert_eq!(tiles.len(), 6);
    for (t, tile) in tiles.iter().enumerate() {
        let (i, j) = ((t % 3) as u32, (t / 3) as u32);
        for (x, y) in [(0u32, 0u32), (127, 0), (0, 127), (127, 127), (5, 77)] {
            let at = ((y * 128 + x) * 4) as usize;
            for c in 0..3u32 {
                assert_eq!(tile[at + c as usize], expected(i * 128 + x, j * 128 + y, c));
            }
            assert_eq!(tile[at + 3], 255);
        }
    }
}

#[test]
fn cut_tiles_leaves_out_partial_tiles() {
    let data = sheet(200, 300, 3);
    let tiles = cut_tiles(&data, 200, 300, 600).unwrap();
    assert_eq!(tiles.len(), 2);
    assert_eq!(tiles[1][0], expected(0, 128, 0));
}

#[test]
fn cut_tiles_of_a_sheet_smaller_than_a_tile() {
    let data = sheet(100, 100, 3);
    assert_eq!(cut_tiles(&data, 100, 100, 300), Some(vec![]));
    assert_eq!(cut_tiles(&Vec::new(), 127, 1000, 381), Some(vec![]));
    assert_eq!(cut_tiles(&Vec::new(), 1000, 127, 3000), Some(vec![]));
}

#[test]
fn cut_tiles_takes_the_pixel_size_from_the_row_length() {
    let data = sheet(128, 128, 4);
    let tiles = cut_tiles(&data, 128, 128, 512).unwrap();
    assert_eq!(tiles.len(), 1);
    let at = ((3 * 128 + 9) * 4) as usize;
    assert_eq!(tiles[0][at], expected(9, 3, 0));
    assert_eq!(tiles[0][at + 2], expected(9, 3, 2));
    assert_eq!(tiles[0][at + 3], 255);
}

#[test]
fn cut_tiles_refuses_a_sheet_without_width() {
    assert_eq!(cut_tiles(&vec![0u8; 1000], 0, 128, 384), None);
}

#[test]
fn cut_tiles_refuses_data_that_end_too_early() {
    let mut data = sheet(128, 128, 3);
    assert_eq!(data.len(), 49152);
    data.pop();
    assert_eq!(cut_tiles(&data, 128, 128, 384), None);
    assert_eq!(cut_tiles(&Vec::new(), 128, 128, 384), None);
}

#[test]
fn cut_tiles_needs_no_more_than_the_last_byte_read() {
    let data = sheet(128, 128, 3);
    assert!(cut_tiles(&data, 128, 128, 384).is_some());
    let huge = cut_tiles(&data, u32::MAX, u32::MAX, u32::MAX);
    assert_eq!(huge, None);
}
