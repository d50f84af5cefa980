//! The background of a level: a canvas of the level's colour, with the
//! level's background image cropped, scaled and laid over it.

use vstd::prelude::*;
use crate::canvas::{byte_pixel, fits, Canvas, Picture, Rgba};

verus! {

/// What `Pixel::blend` of the `image` crate makes of the pixel `bottom`
/// when the partly transparent pixel `top` is laid over it.
pub uninterp spec fn blended(bottom: Rgba, top: Rgba) -> Rgba;

/// What comes of laying the pixel `top` over `bottom`: a pixel with no
/// alpha leaves `bottom` as it is, a pixel with full alpha replaces it, and
/// anything between is blended.
pub open spec fn pixel_over(bottom: Rgba, top: Rgba) -> Rgba {
    if top.a == 0 {
        bottom
    } else if top.a == 255 {
        top
    } else {
        blended(bottom, top)
    }
}

/// Whether an image of `width` by `height` pixels, laid with its corner at
/// `(x, y)`, reaches the position `(i, j)`.
pub open spec fn reaches(x: int, y: int, width: int, height: int, i: int, j: int) -> bool {
    x <= i < x + width && y <= j < y + height
}

/// Where a crop that is asked for at `at` begins in an image `extent` long.
pub open spec fn crop_start(at: int, extent: int) -> int {
    if at <= extent {
        at
    } else {
        extent
    }
}

/// How long a crop of `len` asked for at `at` is in an image `extent` long.
pub open spec fn crop_len(at: int, len: int, extent: int) -> int {
    let room = extent - crop_start(at, extent);
    if len <= room {
        len
    } else {
        room
    }
}

/// Whether the samples that scaling an image `width` wide to `height` rows
/// goes through, four words to the pixel, can be held in memory.
pub open spec fn samples_fit(width: int, height: int) -> bool {
    16 * (width * height) <= isize::MAX
}

/// Whether a side of `extent` pixels is short enough for sampling: the
/// sampling filter places pixels by single-precision numbers, which tell
/// apart only positions up to this length.
pub open spec fn samplable(extent: int) -> bool {
    extent <= 0x100_0000
}

/// Calls `image::imageops::crop_imm` on the image that `bytes` spell out
/// and copies the view it returns with `SubImage::to_image`. The crate
/// moves the corner into the image and shortens the sides to what is left
/// of it; the result holds the pixels of that rectangle.
#[verifier::external_body]
fn crop_bytes(width: u32, height: u32, bytes: Vec<u8>, x: u32, y: u32, w: u32, h: u32) -> (out: Vec<u8>)
    requires
        bytes.len() == 4 * (width * height),
    ensures
        out.len() == 4 * (crop_len(x as int, w as int, width as int) * crop_len(
            y as int,
            h as int,
            height as int,
        )),
        forall|i: int, j: int|
            0 <= i < crop_len(x as int, w as int, width as int) && 0 <= j < crop_len(
                y as int,
                h as int,
                height as int,
            ) ==> #[trigger] byte_pixel(out@, crop_len(x as int, w as int, width as int), i, j)
                == byte_pixel(
                bytes@,
                width as int,
                crop_start(x as int, width as int) + i,
                crop_start(y as int, height as int) + j,
            ),
{
    let source = image::RgbaImage::from_raw(width, height, bytes).unwrap();
    image::imageops::crop_imm(&source, x, y, w, h).to_image().into_raw()
}

/// Calls `image::imageops::resize` with the Gaussian filter on the image
/// that `bytes` spell out. Only the size of the result is claimed: its
/// pixels come out of floating-point sampling. The crate cannot sample an
/// image without pixels, and is kept to sides that it can place exactly.
#[verifier::external_body]
fn resize_bytes(width: u32, height: u32, bytes: Vec<u8>, new_width: u32, new_height: u32) -> (out: Vec<u8>)
    requires
        bytes.len() == 4 * (width * height),
        width > 0,
        height > 0,
        samplable(width as int),
        samplable(height as int),
        samplable(new_width as int),
        samplable(new_height as int),
        fits(new_width as int, new_height as int),
        samples_fit(width as int, new_height as int),
    ensures
        out.len() == 4 * (new_width * new_height),
{
    let source = image::RgbaImage::from_raw(width, height, bytes).unwrap();
    image::imageops::resize(&source, new_width, new_height, image::imageops::FilterType::Gaussian)
        .into_raw()
}

/// Calls `image::imageops::overlay` on the images that `bottom` and `top`
/// spell out, with the corner of `top` at `(x, y)` of `bottom`. The crate
/// visits the pixels of `bottom` that `top` reaches and blends each with
/// the pixel of `top` above it: a pixel without alpha changes nothing, a
/// pixel with full alpha takes the place of the one below, and any other
/// gives what `blended` names. Every other pixel of `bottom` stays.
#[verifier::external_body]
fn overlay_bytes(
    width: u32,
    height: u32,
    bottom: Vec<u8>,
    top_width: u32,
    top_height: u32,
    top: Vec<u8>,
    x: i64,
    y: i64,
) -> (out: Vec<u8>)
    requires
        bottom.len() == 4 * (width * height),
        top.len() == 4 * (top_width * top_height),
    ensures
        out.len() == bottom.len(),
        forall|i: int, j: int|
            0 <= i < width && 0 <= j < height && !reaches(
                x as int,
                y as int,
                top_width as int,
                top_height as int,
                i,
                j,
            ) ==> #[trigger] byte_pixel(out@, width as int, i, j) == byte_pixel(
                bottom@,
                width as int,
                i,
                j,
            ),
        forall|i: int, j: int|
            0 <= i < width && 0 <= j < height && reaches(
                x as int,
                y as int,
                top_width as int,
                top_height as int,
                i,
                j,
            ) && byte_pixel(top@, top_width as int, i - x, j - y).a == 0 ==> #[trigger] byte_pixel(
                out@,
                width as int,
                i,
                j,
            ) == byte_pixel(bottom@, width as int, i, j),
        forall|i: int, j: int|
            0 <= i < width && 0 <= j < height && reaches(
                x as int,
                y as int,
                top_width as int,
                top_height as int,
                i,
                j,
            ) && byte_pixel(top@, top_width as int, i - x, j - y).a == 255
                ==> #[trigger] byte_pixel(out@, width as int, i, j) == byte_pixel(
                top@,
                top_width as int,
                i - x,
                j - y,
            ),
        forall|i: int, j: int|
            0 <= i < width && 0 <= j < height && reaches(
                x as int,
                y as int,
                top_width as int,
                top_height as int,
                i,
                j,
            ) && 0 < byte_pixel(top@, top_width as int, i - x, j - y).a < 255
                ==> #[trigger] byte_pixel(out@, width as int, i, j) == blended(
                byte_pixel(bottom@, width as int, i, j),
                byte_pixel(top@, top_width as int, i - x, j - y),
            ),
{
    let mut under = image::RgbaImage::from_raw(width, height, bottom).unwrap();
    let over = image::RgbaImage::from_raw(top_width, top_height, top).unwrap();
    image::imageops::overlay(&mut under, &over, x, y);
    under.into_raw()
}

/// The part of `source` that begins at `(x, y)` and is `w` by `h` pixels,
/// as far as `source` reaches.
pub fn crop(source: &Canvas, x: u32, y: u32, w: u32, h: u32) -> (out: Canvas)
    ensures
        out@.wf(),
        out@.width == crop_len(x as int, w as int, source@.width as int),
        out@.height == crop_len(y as int, h as int, source@.height as int),
        forall|i: int, j: int| #[trigger]
            out@.holds(i, j) ==> out@.at(i, j) == source@.at(
                crop_start(x as int, source@.width as int) + i,
                crop_start(y as int, source@.height as int) + j,
            ),
{
    let width = source.width();
    let height = source.height();
    let bytes = source.to_bytes();
    let cw: u32 = if x <= width {
        if w <= width - x {
            w
        } else {
            width - x
        }
    } else {
        0
    };
    let ch: u32 = if y <= height {
        if h <= height - y {
            h
        } else {
            height - y
        }
    } else {
        0
    };
    assert(cw * ch <= width * height) by (nonlinear_arith)
        requires
            0 <= cw <= width,
            0 <= ch <= height,
    ;
    let ghost before = bytes@;
    let cut = crop_bytes(width, height, bytes, x, y, w, h);
    let out = Canvas::from_bytes(cw, ch, &cut).unwrap();
    assert forall|i: int, j: int| #[trigger] out@.holds(i, j) implies out@.at(i, j) == source@.at(
        crop_start(x as int, source@.width as int) + i,
        crop_start(y as int, source@.height as int) + j,
    ) by {
        let si = crop_start(x as int, width as int) + i;
        let sj = crop_start(y as int, height as int) + j;
        assert(byte_pixel(cut@, cw as int, i, j) == byte_pixel(before, width as int, si, sj));
        assert(source@.holds(si, sj));
    }
    out
}

/// `bottom` with `top` laid over it, the corner of `top` at `(x, y)`: the
/// pixels that `top` reaches take what comes of laying its pixel over
/// theirs, the others stay.
pub fn overlay(bottom: &Canvas, top: &Canvas, x: i64, y: i64) -> (out: Canvas)
    ensures
        out@.wf(),
        out@.width == bottom@.width,
        out@.height == bottom@.height,
        forall|i: int, j: int| #[trigger]
            out@.holds(i, j) ==> out@.at(i, j) == laid_over(bottom@, top@, x as int, y as int, i, j),
{
    let width = bottom.width();
    let height = bottom.height();
    let top_width = top.width();
    let top_height = top.height();
    let under = bottom.to_bytes();
    let over = top.to_bytes();
    let ghost under_bytes = under@;
    let ghost over_bytes = over@;
    let merged = overlay_bytes(width, height, under, top_width, top_height, over, x, y);
    let out = Canvas::from_bytes(width, height, &merged).unwrap();
    assert forall|i: int, j: int| #[trigger] out@.holds(i, j) implies out@.at(i, j) == laid_over(
        bottom@,
        top@,
        x as int,
        y as int,
        i,
        j,
    ) by {
        assert(bottom@.holds(i, j));
        assert(out@.at(i, j) == byte_pixel(merged@, width as int, i, j));
        assert(bottom@.at(i, j) == byte_pixel(under_bytes, width as int, i, j));
        if reaches(x as int, y as int, top_width as int, top_height as int, i, j) {
            assert(top@.holds(i - x, j - y));
            assert(top@.at(i - x, j - y) == byte_pixel(over_bytes, top_width as int, i - x, j - y));
        }
    }
    out
}

/// The pixel at `(i, j)` once `top` lies over `bottom` with its corner at
/// `(x, y)`.
pub open spec fn laid_over(bottom: Picture, top: Picture, x: int, y: int, i: int, j: int) -> Rgba {
    if reaches(x, y, top.width as int, top.height as int, i, j) {
        pixel_over(bottom.at(i, j), top.at(i - x, j - y))
    } else {
        bottom.at(i, j)
    }
}

/// `source` scaled to `width` by `height` pixels with a smoothing filter.
/// An image without pixels cannot be sampled, nor one with a side too long
/// to sample, and a result that memory cannot hold cannot be made: each
/// gives `None`.
pub fn resize_smooth(source: &Canvas, width: u32, height: u32) -> (out: Option<Canvas>)
    ensures
        out.is_some() == can_resize(source@, width as int, height as int),
        out.is_some() ==> {
            &&& out.unwrap()@.wf()
            &&& out.unwrap()@.width == width
            &&& out.unwrap()@.height == height
        },
{
    let from_width = source.width();
    let from_height = source.height();
    if from_width == 0 || from_height == 0 {
        return None;
    }
    if from_width > 0x100_0000 || from_height > 0x100_0000 || width > 0x100_0000 || height
        > 0x100_0000 {
        return None;
    }
    if Canvas::area(width, height).is_none() {
        return None;
    }
    assert(from_width * height <= 0xffff_ffff * 0xffff_ffff) by (nonlinear_arith)
        requires
            0 <= from_width <= 0xffff_ffff,
            0 <= height <= 0xffff_ffff,
    ;
    let samples: u64 = (from_width as u64) * (height as u64);
    if samples > (isize::MAX / 16) as u64 {
        return None;
    }
    let bytes = source.to_bytes();
    let scaled = resize_bytes(from_width, from_height, bytes, width, height);
    Canvas::from_bytes(width, height, &scaled)
}

/// Whether `source` can be scaled to `width` by `height` pixels.
pub open spec fn can_resize(source: Picture, width: int, height: int) -> bool {
    &&& source.width > 0
    &&& source.height > 0
    &&& samplable(source.width as int)
    &&& samplable(source.height as int)
    &&& samplable(width)
    &&& samplable(height)
    &&& fits(width, height)
    &&& samples_fit(source.width as int, height)
}

/// How the background image of a level is cut, scaled and placed.
#[derive(Clone, Copy, Debug, PartialEq, Eq, Structural)]
pub struct LevelBackgroundPosition {
    /// Left edge of the part of the image that is shown.
    pub crop_x: u32,
    /// Top edge of the part of the image that is shown.
    pub crop_y: u32,
    /// Width of the part of the image that is shown.
    pub crop_width: u32,
    /// Height of the part of the image that is shown.
    pub crop_height: u32,
    /// Width of that part once it is scaled.
    pub scaled_width: u32,
    /// Height of that part once it is scaled.
    pub scaled_height: u32,
    /// Where the scaled part's left edge lies in the level.
    pub left: i64,
    /// Where the scaled part's top edge lies in the level.
    pub top: i64,
}

/// Why the background of a level could not be made.
#[derive(Clone, Copy, Debug, PartialEq, Eq, Structural)]
pub enum LevelBackgroundError {
    /// The level has more pixels than memory can hold.
    LevelTooLarge,
    /// The background image cannot be scaled: a side is too long to
    /// sample, or the scaled image has more pixels than memory can hold.
    ScaledTooLarge,
}

/// The part of `source` that `position` shows.
pub open spec fn shown_part(source: Picture, position: LevelBackgroundPosition) -> (int, int) {
    (
        crop_len(position.crop_x as int, position.crop_width as int, source.width as int),
        crop_len(position.crop_y as int, position.crop_height as int, source.height as int),
    )
}

/// Whether `position` puts anything of `source` on the level at all: the
/// part shown has pixels, and so has its scaled form.
pub open spec fn shows_something(source: Picture, position: LevelBackgroundPosition) -> bool {
    &&& shown_part(source, position).0 > 0
    &&& shown_part(source, position).1 > 0
    &&& position.scaled_width > 0
    &&& position.scaled_height > 0
}

/// Whether the part shown can be scaled: no side is too long to sample,
/// and the scaled form can be held in memory.
pub open spec fn scaled_fits(source: Picture, position: LevelBackgroundPosition) -> bool {
    &&& samplable(shown_part(source, position).0)
    &&& samplable(shown_part(source, position).1)
    &&& samplable(position.scaled_width as int)
    &&& samplable(position.scaled_height as int)
    &&& fits(position.scaled_width as int, position.scaled_height as int)
    &&& samples_fit(shown_part(source, position).0, position.scaled_height as int)
}

/// The level's canvas of `color` with the scaled background `scaled` laid
/// over it at `(left, top)`.
pub fn place_background(width: u32, height: u32, color: Rgba, scaled: &Canvas, left: i64, top: i64) -> (out:
    Option<Canvas>)
    ensures
        out.is_some() == fits(width as int, height as int),
        out.is_some() ==> {
            &&& out.unwrap()@.wf()
            &&& out.unwrap()@.width == width
            &&& out.unwrap()@.height == height
            &&& forall|i: int, j: int| #[trigger]
                out.unwrap()@.holds(i, j) ==> out.unwrap()@.at(i, j) == if reaches(
                    left as int,
                    top as int,
                    scaled@.width as int,
                    scaled@.height as int,
                    i,
                    j,
                ) {
                    pixel_over(color, scaled@.at(i - left, j - top))
                } else {
                    color
                }
        },
{
    match Canvas::filled(width, height, color) {
        None => None,
        Some(base) => {
            let out = overlay(&base, scaled, left, top);
            assert forall|i: int, j: int| #[trigger] out@.holds(i, j) implies out@.at(i, j)
                == if reaches(
                left as int,
                top as int,
                scaled@.width as int,
                scaled@.height as int,
                i,
                j,
            ) {
                pixel_over(color, scaled@.at(i - left, j - top))
            } else {
                color
            } by {
                assert(base@.holds(i, j));
                assert(base@.at(i, j) == color);
            }
            Some(out)
        },
    }
}

/// The image and position of a background, as pictures.
pub open spec fn pictured(background: Option<(&Canvas, LevelBackgroundPosition)>) -> Option<
    (Picture, LevelBackgroundPosition),
> {
    match background {
        Some((source, position)) => Some((source@, position)),
        None => None,
    }
}

/// Whether `out` is the canvas of `color` with `scaled` laid over it where
/// `position` says.
pub open spec fn is_placed_over(
    out: Picture,
    color: Rgba,
    scaled: Picture,
    position: LevelBackgroundPosition,
) -> bool {
    forall|i: int, j: int| #[trigger]
        out.holds(i, j) ==> out.at(i, j) == if reaches(
            position.left as int,
            position.top as int,
            scaled.width as int,
            scaled.height as int,
            i,
            j,
        ) {
            pixel_over(color, scaled.at(i - position.left, j - position.top))
        } else {
            color
        }
}

/// Whether `out` is a background of a level of `width` by `height` pixels:
/// of that size, all of `color` where no image is shown, and else the
/// canvas of `color` with some picture of the scaled size laid over it at
/// its place. What the scaled picture holds is up to the smoothing filter.
pub open spec fn is_background(
    out: Picture,
    width: int,
    height: int,
    color: Rgba,
    background: Option<(Picture, LevelBackgroundPosition)>,
) -> bool {
    &&& out.wf()
    &&& out.width == width
    &&& out.height == height
    &&& match background {
        Some((source, position)) if shows_something(source, position) => exists|scaled: Picture|
            {
                &&& #[trigger] scaled.wf()
                &&& scaled.width == position.scaled_width
                &&& scaled.height == position.scaled_height
                &&& is_placed_over(out, color, scaled, position)
            },
        _ => out.is_solid(color),
    }
}

/// The background of a level of `width` by `height` pixels. Without a
/// background image it is a canvas of `color`. With one, the part of the
/// image that `position` shows is cut out, scaled with a smoothing filter
/// to the size that `position` gives, and laid over a canvas of `color` at
/// the place that `position` gives; where nothing is shown, the canvas of
/// `color` is the result.
pub fn build_level_background(
    width: u32,
    height: u32,
    color: Rgba,
    background: Option<(&Canvas, LevelBackgroundPosition)>,
) -> (out: Result<Canvas, LevelBackgroundError>)
    ensures
        out is Ok ==> is_background(
            out.unwrap()@,
            width as int,
            height as int,
            color,
            pictured(background),
        ),
        (out matches Err(LevelBackgroundError::LevelTooLarge)) <==> !fits(
            width as int,
            height as int,
        ),
        (out matches Err(LevelBackgroundError::ScaledTooLarge)) <==> fits(width as int, height as int)
            && background is Some && shows_something(background.unwrap().0@, background.unwrap().1)
            && !scaled_fits(background.unwrap().0@, background.unwrap().1),
{
    let base = match Canvas::filled(width, height, color) {
        Some(base) => base,
        None => { return Err(LevelBackgroundError::LevelTooLarge); },
    };
    let (source, position) = match background {
        Some(pair) => pair,
        None => { return Ok(base); },
    };
    let part = crop(
        source,
        position.crop_x,
        position.crop_y,
        position.crop_width,
        position.crop_height,
    );
    if part.width() == 0 || part.height() == 0 || position.scaled_width == 0
        || position.scaled_height == 0 {
        return Ok(base);
    }
    let scaled = match resize_smooth(&part, position.scaled_width, position.scaled_height) {
        Some(scaled) => scaled,
        None => { return Err(LevelBackgroundError::ScaledTooLarge); },
    };
    let out = place_background(width, height, color, &scaled, position.left, position.top).unwrap();
    proof {
        let witness = scaled@;
        assert(witness.wf());
        assert(is_placed_over(out@, color, witness, position));
    }
    Ok(out)
}

} // verus!
