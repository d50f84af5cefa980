//! Tile placements, and the image of a tile layer painted from them.

use vstd::prelude::*;
use crate::canvas::{fits, lemma_index_in_grid, transparent, Canvas, Picture, Rgba};

verus! {

/// One tile of a layer: where it goes, where it comes from in the tileset,
/// and how it is mirrored.
#[derive(Clone, Copy, Debug, PartialEq, Eq, Structural)]
pub struct TileInstance {
    /// Left edge of the destination, in pixels of the layer.
    pub px_x: i64,
    /// Top edge of the destination, in pixels of the layer.
    pub px_y: i64,
    /// Left edge of the source, in pixels of the tileset.
    pub src_x: i64,
    /// Top edge of the source, in pixels of the tileset.
    pub src_y: i64,
    /// Mirrored left to right.
    pub flip_x: bool,
    /// Mirrored top to bottom.
    pub flip_y: bool,
    /// The tile's number in its tileset.
    pub tile_id: i64,
}

/// Why a layer image could not be painted.
#[derive(Clone, Copy, Debug, PartialEq, Eq, Structural)]
pub enum BuildImageFromTilesError {
    /// The layer has more pixels than can be addressed.
    CanvasTooLarge,
    /// The tile with this index reaches outside the layer or outside the
    /// tileset.
    TileOutOfBounds(usize),
}

/// Whether `tile`, `cell` pixels square, lies within a layer of `width` by
/// `height` pixels and takes its pixels from within `tileset`.
pub open spec fn placed(tile: TileInstance, cell: int, width: int, height: int, tileset: Picture) -> bool {
    &&& 0 <= tile.px_x && tile.px_x + cell <= width
    &&& 0 <= tile.px_y && tile.px_y + cell <= height
    &&& 0 <= tile.src_x && tile.src_x + cell <= tileset.width
    &&& 0 <= tile.src_y && tile.src_y + cell <= tileset.height
}

/// Whether `tile` paints the layer's pixel `(x, y)`.
pub open spec fn covers(tile: TileInstance, cell: int, x: int, y: int) -> bool {
    tile.px_x <= x < tile.px_x + cell && tile.px_y <= y < tile.px_y + cell
}

/// The tileset pixel that `tile` puts at offset `(dx, dy)` from its
/// top-left corner: a mirrored tile reads its source from the far edge.
pub open spec fn source_pixel(tileset: Picture, tile: TileInstance, cell: int, dx: int, dy: int) -> Rgba {
    let sx = if tile.flip_x { cell - 1 - dx } else { dx };
    let sy = if tile.flip_y { cell - 1 - dy } else { dy };
    tileset.at(tile.src_x + sx, tile.src_y + sy)
}

/// The layer's pixel `(x, y)` once `tiles` are painted in order: the last
/// tile that covers it decides, and an uncovered pixel shows nothing.
pub open spec fn painted(tileset: Picture, tiles: Seq<TileInstance>, cell: int, x: int, y: int) -> Rgba
    decreases tiles.len(),
{
    if tiles.len() == 0 {
        transparent()
    } else if covers(tiles.last(), cell, x, y) {
        source_pixel(tileset, tiles.last(), cell, x - tiles.last().px_x, y - tiles.last().px_y)
    } else {
        painted(tileset, tiles.drop_last(), cell, x, y)
    }
}

/// The pixel at `(x, y)` of rows `width` wide.
pub open spec fn grid_at(pixels: Seq<Rgba>, width: int, x: int, y: int) -> Rgba {
    pixels[y * width + x]
}

/// Two positions of a grid with the same index are the same position.
proof fn lemma_index_injective(width: int, x: int, y: int, x2: int, y2: int)
    requires
        0 <= x < width,
        0 <= x2 < width,
        0 <= y,
        0 <= y2,
        y * width + x == y2 * width + x2,
    ensures
        x == x2,
        y == y2,
{
    if y < y2 {
        assert((y + 1) * width <= y2 * width) by (nonlinear_arith)
            requires
                y + 1 <= y2,
                width > 0,
        ;
        assert((y + 1) * width == y * width + width) by (nonlinear_arith);
    } else if y2 < y {
        assert((y2 + 1) * width <= y * width) by (nonlinear_arith)
            requires
                y2 + 1 <= y,
                width > 0,
        ;
        assert((y2 + 1) * width == y2 * width + width) by (nonlinear_arith);
    }
}

/// Sets the pixel at `(x, y)` and no other.
fn put(pixels: &mut Vec<Rgba>, width: u32, height: u32, x: u32, y: u32, p: Rgba)
    requires
        old(pixels)@.len() == width * height,
        fits(width as int, height as int),
        x < width,
        y < height,
    ensures
        final(pixels)@.len() == old(pixels)@.len(),
        forall|x2: int, y2: int|
            0 <= x2 < width && 0 <= y2 < height ==> #[trigger] grid_at(
                final(pixels)@,
                width as int,
                x2,
                y2,
            ) == if x2 == x && y2 == y {
                p
            } else {
                grid_at(old(pixels)@, width as int, x2, y2)
            },
{
    proof {
        lemma_index_in_grid(width as int, height as int, x as int, y as int);
    }
    let k: usize = (y as usize) * (width as usize) + (x as usize);
    pixels.set(k, p);
    proof {
        assert forall|x2: int, y2: int| 0 <= x2 < width && 0 <= y2 < height implies #[trigger] grid_at(
            pixels@,
            width as int,
            x2,
            y2,
        ) == if x2 == x && y2 == y {
            p
        } else {
            grid_at(old(pixels)@, width as int, x2, y2)
        } by {
            lemma_index_in_grid(width as int, height as int, x2, y2);
            if y2 * width + x2 == k {
                lemma_index_injective(width as int, x2, y2, x as int, y as int);
            }
        }
    }
}

/// Whether `tile` lies within the layer and within the tileset.
pub fn is_placed(tile: &TileInstance, cell: u32, width: u32, height: u32, tileset: &Canvas) -> (ok: bool)
    ensures
        ok == placed(*tile, cell as int, width as int, height as int, tileset@),
{
    let c: i64 = cell as i64;
    let tw: i64 = tileset.width() as i64;
    let th: i64 = tileset.height() as i64;
    let w: i64 = width as i64;
    let h: i64 = height as i64;
    0 <= tile.px_x && tile.px_x <= w - c && 0 <= tile.px_y && tile.px_y <= h - c && 0 <= tile.src_x
        && tile.src_x <= tw - c && 0 <= tile.src_y && tile.src_y <= th - c
}

/// Paints one tile over what is there.
fn paint_tile(
    pixels: &mut Vec<Rgba>,
    width: u32,
    height: u32,
    tileset: &Canvas,
    tile: &TileInstance,
    cell: u32,
)
    requires
        old(pixels)@.len() == width * height,
        fits(width as int, height as int),
        placed(*tile, cell as int, width as int, height as int, tileset@),
    ensures
        final(pixels)@.len() == old(pixels)@.len(),
        forall|x: int, y: int|
            0 <= x < width && 0 <= y < height ==> #[trigger] grid_at(
                final(pixels)@,
                width as int,
                x,
                y,
            ) == if covers(*tile, cell as int, x, y) {
                source_pixel(tileset@, *tile, cell as int, x - tile.px_x, y - tile.px_y)
            } else {
                grid_at(old(pixels)@, width as int, x, y)
            },
{
    let ghost before = pixels@;
    let tw = tileset.width();
    let th = tileset.height();
    let px: u32 = tile.px_x as u32;
    let py: u32 = tile.px_y as u32;
    let sx: u32 = tile.src_x as u32;
    let sy: u32 = tile.src_y as u32;
    let mut dy: u32 = 0;
    while dy < cell
        invariant
            dy <= cell,
            pixels@.len() == width * height,
            fits(width as int, height as int),
            placed(*tile, cell as int, width as int, height as int, tileset@),
            px == tile.px_x,
            py == tile.px_y,
            sx == tile.src_x,
            sy == tile.src_y,
            tw == tileset@.width,
            th == tileset@.height,
            forall|x: int, y: int|
                0 <= x < width && 0 <= y < height ==> #[trigger] grid_at(
                    pixels@,
                    width as int,
                    x,
                    y,
                ) == if covers(*tile, cell as int, x, y) && y - py < dy {
                    source_pixel(tileset@, *tile, cell as int, x - px, y - py)
                } else {
                    grid_at(before, width as int, x, y)
                },
        decreases cell - dy,
    {
        let from_y: u32 = if tile.flip_y { sy + (cell - 1 - dy) } else { sy + dy };
        let mut dx: u32 = 0;
        while dx < cell
            invariant
                dx <= cell,
                dy < cell,
                pixels@.len() == width * height,
                fits(width as int, height as int),
                placed(*tile, cell as int, width as int, height as int, tileset@),
                px == tile.px_x,
                py == tile.px_y,
                sx == tile.src_x,
                sy == tile.src_y,
                tw == tileset@.width,
                th == tileset@.height,
                from_y == sy + (if tile.flip_y { cell - 1 - dy } else { dy as int }),
                forall|x: int, y: int|
                    0 <= x < width && 0 <= y < height ==> #[trigger] grid_at(
                        pixels@,
                        width as int,
                        x,
                        y,
                    ) == if covers(*tile, cell as int, x, y) && (y - py < dy || (y - py == dy && x
                        - px < dx)) {
                        source_pixel(tileset@, *tile, cell as int, x - px, y - py)
                    } else {
                        grid_at(before, width as int, x, y)
                    },
            decreases cell - dx,
        {
            let from_x: u32 = if tile.flip_x { sx + (cell - 1 - dx) } else { sx + dx };
            let p = tileset.pixel(from_x, from_y);
            put(pixels, width, height, px + dx, py + dy, p);
            dx += 1;
        }
        dy += 1;
    }
}

/// The image of a tile layer: a transparent canvas of `width` by `height`
/// pixels on which `tiles` are painted in list order, each a square of
/// `cell` pixels copied from `tileset`, mirrored as its flags say. A later
/// tile paints over an earlier one.
pub fn build_layer_image(
    tileset: &Canvas,
    width: u32,
    height: u32,
    cell: u32,
    tiles: &Vec<TileInstance>,
) -> (out: Result<Canvas, BuildImageFromTilesError>)
    ensures
        match out {
            Ok(image) => {
                &&& fits(width as int, height as int)
                &&& forall|i: int|
                    0 <= i < tiles.len() ==> placed(
                        #[trigger] tiles[i],
                        cell as int,
                        width as int,
                        height as int,
                        tileset@,
                    )
                &&& image@.wf()
                &&& image@.width == width
                &&& image@.height == height
                &&& forall|x: int, y: int| #[trigger]
                    image@.holds(x, y) ==> image@.at(x, y) == painted(
                        tileset@,
                        tiles@,
                        cell as int,
                        x,
                        y,
                    )
            },
            Err(BuildImageFromTilesError::CanvasTooLarge) => !fits(width as int, height as int),
            Err(BuildImageFromTilesError::TileOutOfBounds(bad)) => {
                &&& fits(width as int, height as int)
                &&& bad < tiles.len()
                &&& !placed(tiles[bad as int], cell as int, width as int, height as int, tileset@)
                &&& forall|i: int|
                    0 <= i < bad ==> placed(
                        #[trigger] tiles[i],
                        cell as int,
                        width as int,
                        height as int,
                        tileset@,
                    )
            },
        },
{
    let n = match Canvas::area(width, height) {
        Some(n) => n,
        None => { return Err(BuildImageFromTilesError::CanvasTooLarge); },
    };
    let mut check: usize = 0;
    while check < tiles.len()
        invariant
            check <= tiles.len(),
            fits(width as int, height as int),
            forall|i: int|
                0 <= i < check ==> placed(
                    #[trigger] tiles[i],
                    cell as int,
                    width as int,
                    height as int,
                    tileset@,
                ),
        decreases tiles.len() - check,
    {
        if !is_placed(&tiles[check], cell, width, height, tileset) {
            return Err(BuildImageFromTilesError::TileOutOfBounds(check));
        }
        check += 1;
    }
    let clear = Rgba { r: 0, g: 0, b: 0, a: 0 };
    let mut pixels: Vec<Rgba> = Vec::new();
    let mut k: usize = 0;
    while k < n
        invariant
            k <= n,
            n == width * height,
            fits(width as int, height as int),
            pixels@.len() == k,
            forall|j: int| 0 <= j < k ==> pixels@[j] == clear,
        decreases n - k,
    {
        pixels.push(clear);
        k += 1;
    }
    assert forall|x: int, y: int| 0 <= x < width && 0 <= y < height implies #[trigger] grid_at(
        pixels@,
        width as int,
        x,
        y,
    ) == painted(tileset@, tiles@.take(0), cell as int, x, y) by {
        lemma_index_in_grid(width as int, height as int, x, y);
    }
    let mut i: usize = 0;
    while i < tiles.len()
        invariant
            i <= tiles.len(),
            pixels@.len() == width * height,
            fits(width as int, height as int),
            forall|j: int|
                0 <= j < tiles.len() ==> placed(
                    #[trigger] tiles[j],
                    cell as int,
                    width as int,
                    height as int,
                    tileset@,
                ),
            forall|x: int, y: int|
                0 <= x < width && 0 <= y < height ==> #[trigger] grid_at(
                    pixels@,
                    width as int,
                    x,
                    y,
                ) == painted(tileset@, tiles@.take(i as int), cell as int, x, y),
        decreases tiles.len() - i,
    {
        assert(tiles@.take(i + 1).drop_last() =~= tiles@.take(i as int));
        assert(tiles@.take(i + 1).last() == tiles[i as int]);
        paint_tile(&mut pixels, width, height, tileset, &tiles[i], cell);
        i += 1;
    }
    assert(tiles@.take(tiles.len() as int) =~= tiles@);
    let image = Canvas::from_pixels(width, height, pixels);
    assert forall|x: int, y: int| #[trigger] image@.holds(x, y) implies image@.at(x, y) == painted(
        tileset@,
        tiles@,
        cell as int,
        x,
        y,
    ) by {
        assert(image@.at(x, y) == grid_at(image@.pixels, width as int, x, y));
    }
    Ok(image)
}

} // verus!
