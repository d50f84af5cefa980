//! Raster images with four eight-bit channels, held row by row.

use vstd::prelude::*;

verus! {

/// One pixel: red, green, blue and alpha.
#[derive(Clone, Copy, Debug, PartialEq, Eq, Structural)]
pub struct Rgba {
    pub r: u8,
    pub g: u8,
    pub b: u8,
    pub a: u8,
}

/// The pixel that shows nothing.
pub open spec fn transparent() -> Rgba {
    Rgba { r: 0, g: 0, b: 0, a: 0 }
}

/// The mathematical picture that a [`Canvas`] holds.
pub struct Picture {
    pub width: nat,
    pub height: nat,
    /// The rows from top to bottom, each from left to right.
    pub pixels: Seq<Rgba>,
}

impl Picture {
    /// Every position has its pixel.
    pub open spec fn wf(self) -> bool {
        self.pixels.len() == self.width * self.height
    }

    /// Whether `(x, y)` lies in the picture.
    pub open spec fn holds(self, x: int, y: int) -> bool {
        0 <= x < self.width && 0 <= y < self.height
    }

    /// The pixel in column `x` of row `y`.
    pub open spec fn at(self, x: int, y: int) -> Rgba
        recommends
            self.holds(x, y),
    {
        self.pixels[y * self.width + x]
    }

    /// Every pixel is `color`.
    pub open spec fn is_solid(self, color: Rgba) -> bool {
        forall|x: int, y: int| self.holds(x, y) ==> #[trigger] self.at(x, y) == color
    }
}

/// The pixel that the bytes `bytes` of a picture `width` wide hold at
/// `(x, y)`, four bytes to the pixel.
pub open spec fn byte_pixel(bytes: Seq<u8>, width: int, x: int, y: int) -> Rgba {
    let k = 4 * (y * width + x);
    Rgba { r: bytes[k], g: bytes[k + 1], b: bytes[k + 2], a: bytes[k + 3] }
}

/// A position inside a `width` by `height` grid has its own index below
/// `width * height`.
pub proof fn lemma_index_in_grid(width: int, height: int, x: int, y: int)
    requires
        0 <= x < width,
        0 <= y < height,
    ensures
        0 <= y * width + x < width * height,
        y * width + x == x + y * width,
{
    assert(y * width >= 0) by (nonlinear_arith)
        requires
            y >= 0,
            width > 0,
    ;
    assert((y + 1) * width <= height * width) by (nonlinear_arith)
        requires
            y + 1 <= height,
            width > 0,
    ;
    assert((y + 1) * width == y * width + width) by (nonlinear_arith);
    assert(height * width == width * height) by (nonlinear_arith);
}

/// An image of `width` by `height` pixels.
pub struct Canvas {
    width: u32,
    height: u32,
    pixels: Vec<Rgba>,
}

impl View for Canvas {
    type V = Picture;

    closed spec fn view(&self) -> Picture {
        Picture { width: self.width as nat, height: self.height as nat, pixels: self.pixels@ }
    }
}

/// Whether an image of `width` by `height` pixels, four bytes to the pixel,
/// can be held in memory at all.
pub open spec fn fits(width: int, height: int) -> bool {
    4 * (width * height) <= isize::MAX
}

impl Canvas {
    #[verifier::type_invariant]
    spec fn inv(&self) -> bool {
        &&& self.pixels@.len() == self.width * self.height
        &&& fits(self.width as int, self.height as int)
    }

    /// The number of pixels of a `width` by `height` image, where four bytes
    /// to the pixel can be addressed.
    pub fn area(width: u32, height: u32) -> (n: Option<usize>)
        ensures
            n.is_some() == fits(width as int, height as int),
            n.is_some() ==> n.unwrap() == width * height,
    {
        assert(0 <= width * height <= 0xffff_ffff * 0xffff_ffff) by (nonlinear_arith)
            requires
                0 <= width <= 0xffff_ffff,
                0 <= height <= 0xffff_ffff,
        ;
        let n: u64 = (width as u64) * (height as u64);
        if n > (isize::MAX / 4) as u64 {
            None
        } else {
            Some(n as usize)
        }
    }

    /// An image with every pixel `color`; `None` where it would be too large
    /// to address.
    pub fn filled(width: u32, height: u32, color: Rgba) -> (out: Option<Canvas>)
        ensures
            out.is_some() == fits(width as int, height as int),
            out.is_some() ==> {
                &&& out.unwrap()@.wf()
                &&& out.unwrap()@.width == width
                &&& out.unwrap()@.height == height
                &&& out.unwrap()@.is_solid(color)
            },
    {
        let n = match Canvas::area(width, height) {
            Some(n) => n,
            None => { return None; },
        };
        let mut pixels: Vec<Rgba> = Vec::new();
        let mut i: usize = 0;
        while i < n
            invariant
                i <= n,
                pixels@.len() == i,
                forall|k: int| 0 <= k < i ==> pixels@[k] == color,
            decreases n - i,
        {
            pixels.push(color);
            i += 1;
        }
        let out = Canvas { width, height, pixels };
        assert(out@.is_solid(color)) by {
            assert forall|x: int, y: int| out@.holds(x, y) implies #[trigger] out@.at(x, y)
                == color by {
                lemma_index_in_grid(width as int, height as int, x, y);
            }
        }
        Some(out)
    }

    /// The image made of `pixels`, row by row.
    pub(crate) fn from_pixels(width: u32, height: u32, pixels: Vec<Rgba>) -> (out: Canvas)
        requires
            pixels@.len() == width * height,
            fits(width as int, height as int),
        ensures
            out@ == (Picture { width: width as nat, height: height as nat, pixels: pixels@ }),
    {
        Canvas { width, height, pixels }
    }

    /// The width in pixels.
    pub fn width(&self) -> (w: u32)
        ensures
            w == self@.width,
            self@.wf(),
            fits(self@.width as int, self@.height as int),
    {
        proof {
            use_type_invariant(self);
        }
        self.width
    }

    /// The height in pixels.
    pub fn height(&self) -> (h: u32)
        ensures
            h == self@.height,
            self@.wf(),
            fits(self@.width as int, self@.height as int),
    {
        proof {
            use_type_invariant(self);
        }
        self.height
    }

    /// The pixel at `(x, y)`, where the image has one.
    pub fn get(&self, x: u32, y: u32) -> (p: Option<Rgba>)
        ensures
            p.is_some() == self@.holds(x as int, y as int),
            p.is_some() ==> p.unwrap() == self@.at(x as int, y as int),
    {
        proof {
            use_type_invariant(self);
        }
        if x < self.width && y < self.height {
            proof {
                lemma_index_in_grid(self.width as int, self.height as int, x as int, y as int);
            }
            let k: usize = (y as usize) * (self.width as usize) + (x as usize);
            Some(self.pixels[k])
        } else {
            None
        }
    }

    /// The pixel at `(x, y)` of an image that has one there.
    pub(crate) fn pixel(&self, x: u32, y: u32) -> (p: Rgba)
        requires
            self@.holds(x as int, y as int),
        ensures
            p == self@.at(x as int, y as int),
    {
        proof {
            use_type_invariant(self);
            lemma_index_in_grid(self.width as int, self.height as int, x as int, y as int);
        }
        let k: usize = (y as usize) * (self.width as usize) + (x as usize);
        self.pixels[k]
    }

    /// The image that `bytes` spell out, four bytes to the pixel, row by
    /// row; `None` unless there are exactly as many bytes as that takes.
    pub fn from_bytes(width: u32, height: u32, bytes: &Vec<u8>) -> (out: Option<Canvas>)
        ensures
            out.is_some() == (fits(width as int, height as int) && bytes.len() == 4 * (width
                * height)),
            out.is_some() ==> {
                &&& out.unwrap()@.wf()
                &&& out.unwrap()@.width == width
                &&& out.unwrap()@.height == height
                &&& forall|x: int, y: int| #[trigger]
                    out.unwrap()@.holds(x, y) ==> out.unwrap()@.at(x, y) == byte_pixel(
                        bytes@,
                        width as int,
                        x,
                        y,
                    )
            },
    {
        let n = match Canvas::area(width, height) {
            Some(n) => n,
            None => { return None; },
        };
        if bytes.len() != 4 * n {
            return None;
        }
        let mut pixels: Vec<Rgba> = Vec::new();
        let mut i: usize = 0;
        while i < n
            invariant
                i <= n,
                bytes.len() == 4 * n,
                pixels@.len() == i,
                forall|k: int|
                    0 <= k < i ==> #[trigger] pixels@[k] == (Rgba {
                        r: bytes@[4 * k],
                        g: bytes@[4 * k + 1],
                        b: bytes@[4 * k + 2],
                        a: bytes@[4 * k + 3],
                    }),
            decreases n - i,
        {
            let k: usize = 4 * i;
            pixels.push(Rgba { r: bytes[k], g: bytes[k + 1], b: bytes[k + 2], a: bytes[k + 3] });
            i += 1;
        }
        let out = Canvas { width, height, pixels };
        assert forall|x: int, y: int| #[trigger] out@.holds(x, y) implies out@.at(x, y)
            == byte_pixel(bytes@, width as int, x, y) by {
            lemma_index_in_grid(width as int, height as int, x, y);
        }
        Some(out)
    }

    /// The image as bytes, four to the pixel, row by row.
    pub fn to_bytes(&self) -> (bytes: Vec<u8>)
        ensures
            bytes.len() == 4 * (self@.width * self@.height),
            forall|x: int, y: int| #[trigger]
                self@.holds(x, y) ==> byte_pixel(bytes@, self@.width as int, x, y) == self@.at(
                    x,
                    y,
                ),
    {
        proof {
            use_type_invariant(self);
        }
        let n = self.pixels.len();
        let mut bytes: Vec<u8> = Vec::new();
        let mut i: usize = 0;
        while i < n
            invariant
                i <= n,
                n == self.pixels@.len(),
                4 * n <= usize::MAX,
                bytes@.len() == 4 * i,
                forall|k: int|
                    0 <= k < i ==> #[trigger] self.pixels@[k] == (Rgba {
                        r: bytes@[4 * k],
                        g: bytes@[4 * k + 1],
                        b: bytes@[4 * k + 2],
                        a: bytes@[4 * k + 3],
                    }),
            decreases n - i,
        {
            let p = self.pixels[i];
            bytes.push(p.r);
            bytes.push(p.g);
            bytes.push(p.b);
            bytes.push(p.a);
            i += 1;
        }
        assert forall|x: int, y: int| #[trigger] self@.holds(x, y) implies byte_pixel(
            bytes@,
            self@.width as int,
            x,
            y,
        ) == self@.at(x, y) by {
            lemma_index_in_grid(self.width as int, self.height as int, x, y);
        }
        bytes
    }
}

} // verus!
