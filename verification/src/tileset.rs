//! Cutting a decoded tile sheet into tiles.
//!
//! The sheet arrives as rows of pixels, three bytes of colour per pixel and
//! perhaps more; each tile leaves as 128 rows of 128 pixels of four bytes,
//! red, green, blue and full opacity.

use vstd::prelude::*;

verus! {

/// The size of a tile in the tile sheet, in pixels.
pub const TILE_SIZE: (u32, u32) = (128, 128);

/// The number of bytes of a tile that was cut out.
pub const TILE_BYTES: usize = 65536;

/// Where in the sheet the pixel `(x, y)` of the tile in column `i` and row
/// `j` begins, for rows of `row_len` bytes and pixels of `pixel_size` bytes.
pub open spec fn source_index(row_len: int, pixel_size: int, i: int, j: int, x: int, y: int) -> int {
    (j * 128 + y) * row_len + (i * 128 + x) * pixel_size
}

/// The byte of index `k` of the tile in column `i` and row `j`: colour from
/// the sheet, and 255 for every fourth byte.
pub open spec fn tile_byte(data: Seq<u8>, row_len: int, pixel_size: int, i: int, j: int, k: int) -> u8 {
    if k % 4 == 3 {
        255
    } else {
        data[source_index(row_len, pixel_size, i, j, (k / 4) % 128, (k / 4) / 128) + k % 4]
    }
}

/// The tile in column `i` and row `j` of the sheet.
pub open spec fn tile_pixels(data: Seq<u8>, row_len: int, pixel_size: int, i: int, j: int) -> Seq<u8> {
    Seq::new(TILE_BYTES as nat, |k: int| tile_byte(data, row_len, pixel_size, i, j, k))
}

/// The whole tiles of a sheet of `width` by `height` pixels, row by row.
pub open spec fn tiles(data: Seq<u8>, width: int, height: int, row_len: int) -> Seq<Seq<u8>> {
    Seq::new(
        ((width / 128) * (height / 128)) as nat,
        |t: int| tile_pixels(data, row_len, row_len / width, t % (width / 128), t / (width / 128)),
    )
}

/// Tells whether the sheet can be cut: it has a width, and the last byte of
/// its last whole tile, if it has a tile, lies within `data`.
pub open spec fn cuttable(data: Seq<u8>, width: int, height: int, row_len: int) -> bool {
    &&& width > 0
    &&& (width / 128 == 0 || height / 128 == 0 || source_index(
        row_len,
        row_len / width,
        width / 128 - 1,
        height / 128 - 1,
        127,
        127,
    ) + 2 < data.len())
}

/// A pixel begins no later in the sheet than the last pixel of the last
/// tile.
proof fn lemma_source_index_bound(
    row_len: int,
    pixel_size: int,
    i: int,
    j: int,
    x: int,
    y: int,
    i2: int,
    j2: int,
    x2: int,
    y2: int,
)
    requires
        0 <= row_len,
        0 <= pixel_size,
        0 <= i <= i2,
        0 <= j <= j2,
        0 <= x <= x2,
        0 <= y <= y2,
    ensures
        0 <= (j * 128 + y) * row_len <= source_index(row_len, pixel_size, i, j, x, y),
        0 <= (i * 128 + x) * pixel_size,
        source_index(row_len, pixel_size, i, j, x, y) <= source_index(
            row_len,
            pixel_size,
            i2,
            j2,
            x2,
            y2,
        ),
{
    assert(0 <= (j * 128 + y) * row_len <= (j2 * 128 + y2) * row_len) by (nonlinear_arith)
        requires
            0 <= j * 128 + y <= j2 * 128 + y2,
            0 <= row_len,
    ;
    assert(0 <= (i * 128 + x) * pixel_size <= (i2 * 128 + x2) * pixel_size) by (nonlinear_arith)
        requires
            0 <= i * 128 + x <= i2 * 128 + x2,
            0 <= pixel_size,
    ;
}

/// Cuts the tile in column `i` and row `j` out of the sheet.
fn cut_tile(data: &Vec<u8>, row_len: usize, pixel_size: usize, i: usize, j: usize) -> (tile: Vec<u8>)
    requires
        i * 128 + 127 <= u32::MAX,
        j * 128 + 127 <= u32::MAX,
        source_index(row_len as int, pixel_size as int, i as int, j as int, 127, 127) + 2 < data@.len(),
    ensures
        tile@ == tile_pixels(data@, row_len as int, pixel_size as int, i as int, j as int),
{
    let ghost rl = row_len as int;
    let ghost ps = pixel_size as int;
    let mut tile: Vec<u8> = Vec::with_capacity(TILE_BYTES);
    let n: usize = data.len();
    let mut y: usize = 0;
    while y < 128
        invariant
            y <= 128,
            rl == row_len,
            ps == pixel_size,
            i * 128 + 127 <= u32::MAX,
            j * 128 + 127 <= u32::MAX,
            source_index(rl, ps, i as int, j as int, 127, 127) + 2 < data@.len(),
            data@.len() == n,
            tile@.len() == y * 512,
            forall|k: int| 0 <= k < tile@.len() ==> tile@[k] == tile_byte(data@, rl, ps, i as int, j as int, k),
        decreases 128 - y,
    {
        proof {
            lemma_source_index_bound(rl, ps, i as int, j as int, 0, y as int, i as int, j as int, 127, 127);
        }
        let row: usize = (j * 128 + y) * row_len;
        let mut x: usize = 0;
        while x < 128
            invariant
                x <= 128,
                y < 128,
                rl == row_len,
                ps == pixel_size,
                i * 128 + 127 <= u32::MAX,
                j * 128 + 127 <= u32::MAX,
                row == (j * 128 + y) * rl,
                source_index(rl, ps, i as int, j as int, 127, 127) + 2 < data@.len(),
                data@.len() == n,
                tile@.len() == y * 512 + x * 4,
                forall|k: int|
                    0 <= k < tile@.len() ==> tile@[k] == tile_byte(data@, rl, ps, i as int, j as int, k),
            decreases 128 - x,
        {
            proof {
                lemma_source_index_bound(
                    rl,
                    ps,
                    i as int,
                    j as int,
                    x as int,
                    y as int,
                    i as int,
                    j as int,
                    127,
                    127,
                );
            }
            let at: usize = row + (i * 128 + x) * pixel_size;
            let ghost before = tile@;
            tile.push(data[at]);
            tile.push(data[at + 1]);
            tile.push(data[at + 2]);
            tile.push(255);
            proof {
                let base = y * 512 + x * 4;
                assert(at == source_index(rl, ps, i as int, j as int, x as int, y as int));
                assert forall|k: int| 0 <= k < tile@.len() implies tile@[k] == tile_byte(
                    data@,
                    rl,
                    ps,
                    i as int,
                    j as int,
                    k,
                ) by {
                    if k < base {
                        assert(tile@[k] == before[k]);
                    } else {
                        assert((k / 4) % 128 == x && (k / 4) / 128 == y);
                    }
                }
            }
            x += 1;
        }
        y += 1;
    }
    assert(tile@ =~= tile_pixels(data@, rl, ps, i as int, j as int));
    tile
}

/// Cuts a sheet of `width` by `height` pixels, stored in `data` as rows of
/// `row_len` bytes, into its whole tiles, row by row. A pixel takes
/// `row_len / width` bytes, of which the first three are its colour.
///
/// Gives nothing when the sheet has no width or when `data` ends before the
/// last tile does.
pub fn cut_tiles(data: &Vec<u8>, width: u32, height: u32, row_len: u32) -> (r: Option<Vec<Vec<u8>>>)
    ensures
        r.is_some() <==> cuttable(data@, width as int, height as int, row_len as int),
        r.is_some() ==> r.unwrap()@.len() == tiles(
            data@,
            width as int,
            height as int,
            row_len as int,
        ).len(),
        r.is_some() ==> forall|t: int|
            0 <= t < r.unwrap()@.len() ==> (#[trigger] r.unwrap()@[t])@ == tiles(
                data@,
                width as int,
                height as int,
                row_len as int,
            )[t],
{
    let mut cut: Vec<Vec<u8>> = Vec::new();
    if width == 0 {
        return None;
    }
    let pixel_size: u32 = row_len / width;
    let nx: u32 = width / 128;
    let ny: u32 = height / 128;
    let ghost rl = row_len as int;
    let ghost ps = pixel_size as int;
    assert(0 <= nx * ny) by (nonlinear_arith);
    if nx == 0 || ny == 0 {
        assert(nx * ny == 0) by (nonlinear_arith)
            requires
                nx == 0 || ny == 0,
        ;
        return Some(cut);
    }
    let rows: u128 = (ny as u128) * 128 - 1;
    let columns: u128 = (nx as u128) * 128 - 1;
    assert(rows * row_len <= 0xffff_ffff * 0xffff_ffff) by (nonlinear_arith)
        requires
            0 <= rows <= 0xffff_ffff,
            0 <= row_len <= 0xffff_ffff,
    ;
    assert(columns * pixel_size <= 0xffff_ffff * 0xffff_ffff) by (nonlinear_arith)
        requires
            0 <= columns <= 0xffff_ffff,
            0 <= pixel_size <= 0xffff_ffff,
    ;
    let last: u128 = rows * (row_len as u128) + columns * (pixel_size as u128) + 2;
    assert(last == source_index(rl, ps, nx - 1, ny - 1, 127, 127) + 2);
    if last >= data.len() as u128 {
        return None;
    }
    let ghost goal = tiles(data@, width as int, height as int, rl);
    let mut j: u32 = 0;
    while j < ny
        invariant
            j <= ny,
            0 < nx == width / 128,
            0 < ny == height / 128,
            0 < width,
            rl == row_len,
            ps == pixel_size,
            ps == rl / (width as int),
            source_index(rl, ps, nx - 1, ny - 1, 127, 127) + 2 < data@.len(),
            goal == tiles(data@, width as int, height as int, rl),
            cut@.len() == j * nx,
            forall|t: int| 0 <= t < cut@.len() ==> (#[trigger] cut@[t])@ == goal[t],
        decreases ny - j,
    {
        let mut i: u32 = 0;
        while i < nx
            invariant
                i <= nx,
                j < ny,
                0 < nx == width / 128,
                0 < ny == height / 128,
                0 < width,
                rl == row_len,
                ps == pixel_size,
                ps == rl / (width as int),
                source_index(rl, ps, nx - 1, ny - 1, 127, 127) + 2 < data@.len(),
                goal == tiles(data@, width as int, height as int, rl),
                cut@.len() == j * nx + i,
                forall|t: int| 0 <= t < cut@.len() ==> (#[trigger] cut@[t])@ == goal[t],
            decreases nx - i,
        {
            proof {
                lemma_source_index_bound(rl, ps, i as int, j as int, 127, 127, nx - 1, ny - 1, 127, 127);
                let t = j * nx + i;
                vstd::arithmetic::div_mod::lemma_fundamental_div_mod_converse(
                    t,
                    nx as int,
                    j as int,
                    i as int,
                );
                assert(t < nx * ny) by (nonlinear_arith)
                    requires
                        t == j * nx + i,
                        i < nx,
                        j + 1 <= ny,
                ;
            }
            let tile = cut_tile(data, row_len as usize, pixel_size as usize, i as usize, j as usize);
            cut.push(tile);
            i += 1;
        }
        proof {
            assert(j * nx + nx == (j + 1) * nx) by (nonlinear_arith);
        }
        j += 1;
    }
    proof {
        assert(cut@.len() == nx * ny) by (nonlinear_arith)
            requires
                cut@.len() == j * nx,
                j == ny,
        ;
    }
    Some(cut)
}

} // verus!
