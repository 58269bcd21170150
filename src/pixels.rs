//! A pixel buffer: rows of pixels from the top left, each pixel its red,
//! green and blue bytes, followed by an alpha byte in a buffer with alpha.
use vstd::prelude::*;
use vstd::arithmetic::div_mod::lemma_fundamental_div_mod_converse;
use crate::fixed::RgbBytes;

verus! {

/// What a pixel buffer holds: its size, the bytes per pixel and the bytes.
pub struct Raster {
    pub width: nat,
    pub height: nat,
    pub channels: nat,
    pub bytes: Seq<u8>,
}

impl Raster {
    /// Three or four bytes per pixel, one byte per channel of each pixel, and
    /// a size whose bytes can be counted in a `u32`.
    pub open spec fn wf(self) -> bool {
        &&& self.channels == 3 || self.channels == 4
        &&& self.width <= u32::MAX && self.height <= u32::MAX
        &&& self.width * self.height * self.channels <= u32::MAX
        &&& self.bytes.len() == self.width * self.height * self.channels
    }

    /// Where the pixel at column `x` and row `y` starts.
    pub open spec fn offset(self, x: int, y: int) -> int {
        (y * self.width + x) * self.channels
    }

    /// Channel `c` of the pixel at column `x` and row `y`.
    pub open spec fn at(self, x: int, y: int, c: int) -> u8 {
        self.bytes[self.offset(x, y) + c]
    }

    /// The red, green and blue bytes of the pixel at column `x` and row `y`.
    pub open spec fn pixel(self, x: int, y: int) -> Seq<u8> {
        seq![self.at(x, y, 0), self.at(x, y, 1), self.at(x, y, 2)]
    }

    pub open spec fn contains(self, x: int, y: int) -> bool {
        0 <= x < self.width && 0 <= y < self.height
    }

    /// The same size and layout.
    pub open spec fn same_shape(self, other: Raster) -> bool {
        self.width == other.width && self.height == other.height && self.channels == other.channels
    }
}

/// png's `EncodingError`, what `encode_png` hands back when the encoder
/// refuses an image; it is only carried, never looked into.
#[verifier::external_type_specification]
#[verifier::external_body]
pub struct ExEncodingError(png::EncodingError);

/// The PNG stream that png's encoder writes for an image of `width` by
/// `height` pixels of 8-bit channels, RGBA where `alpha` holds and RGB
/// otherwise, from the bytes `data`, with its default compression and filter.
pub uninterp spec fn png_stream(width: u32, height: u32, alpha: bool, data: Seq<u8>) -> Seq<u8>;

/// Relies on png's `Encoder::new`, `Encoder::write_header` and
/// `Writer::write_image_data`, writing into memory, with the `IEND` chunk
/// that dropping the writer adds: what comes out depends on the arguments
/// alone; a zero width or height, or data whose length is not
/// `width * height` pixels of 3 (RGB) or 4 (RGBA) bytes, is refused, and
/// nothing else is: 8-bit RGB and RGBA are valid pairings, the image is not
/// indexed, and writing into a `Vec` does not fail. The byte count must fit
/// in a `usize`, where png computes it.
#[verifier::external_body]
fn encode_png(width: u32, height: u32, alpha: bool, data: &Vec<u8>) -> (r: Result<Vec<u8>, png::EncodingError>)
    requires
        width * height * (if alpha { 4int } else { 3int }) <= usize::MAX,
    ensures
        width > 0 && height > 0 && data@.len() == width * height * (if alpha { 4int } else { 3int })
            ==> r is Ok,
        r is Ok ==> r->Ok_0@ == png_stream(width, height, alpha, data@),
        width == 0 || height == 0 ==> r is Err,
        data@.len() != width * height * (if alpha { 4int } else { 3int }) ==> r is Err,
{
    let mut out: Vec<u8> = Vec::new();
    let mut encoder = png::Encoder::new(&mut out, width, height);
    encoder.set_color(if alpha { png::ColorType::RGBA } else { png::ColorType::RGB });
    encoder.set_depth(png::BitDepth::Eight);
    let mut writer = encoder.write_header()?;
    writer.write_image_data(data)?;
    drop(writer);
    Ok(out)
}

/// Why an image could not be encoded.
#[derive(Debug, PartialEq, Eq, Structural)]
pub enum ImageError {
    /// The PNG encoder refused the image (an empty one, for instance).
    Encoding,
}

/// Whether column `px` and row `py` lie in the rectangle from `(x, y)` to
/// `(x + w, y + h)`, both corners included.
pub open spec fn in_rect(x: int, y: int, w: int, h: int, px: int, py: int) -> bool {
    x <= px <= x + w && y <= py <= y + h
}

/// A buffer of pixels, all white (and opaque) when made.
pub struct Pixels {
    width: u32,
    height: u32,
    channels: u32,
    data: Vec<u8>,
}

impl View for Pixels {
    type V = Raster;

    closed spec fn view(&self) -> Raster {
        Raster {
            width: self.width as nat,
            height: self.height as nat,
            channels: self.channels as nat,
            bytes: self.data@,
        }
    }
}

/// Distinct channels of distinct pixels sit at distinct offsets.
proof fn lemma_offset_unique(w: int, ch: int, x1: int, y1: int, c1: int, x2: int, y2: int, c2: int)
    requires
        w > 0,
        ch > 0,
        0 <= x1 < w,
        0 <= x2 < w,
        0 <= c1 < ch,
        0 <= c2 < ch,
        (y1 * w + x1) * ch + c1 == (y2 * w + x2) * ch + c2,
    ensures
        x1 == x2,
        y1 == y2,
        c1 == c2,
{
    let k = (y1 * w + x1) * ch + c1;
    lemma_fundamental_div_mod_converse(k, ch, y1 * w + x1, c1);
    lemma_fundamental_div_mod_converse(k, ch, y2 * w + x2, c2);
    lemma_fundamental_div_mod_converse(y1 * w + x1, w, y1, x1);
    lemma_fundamental_div_mod_converse(y2 * w + x2, w, y2, x2);
}

/// A pixel inside the buffer has all its channels inside the bytes.
proof fn lemma_offset_in_bounds(r: Raster, x: int, y: int)
    requires
        r.wf(),
        r.contains(x, y),
    ensures
        0 <= y * r.width <= y * r.width + x <= r.offset(x, y),
        r.offset(x, y) + r.channels <= r.bytes.len(),
        r.offset(x, y) + r.channels <= u32::MAX,
{
    let w = r.width as int;
    let h = r.height as int;
    let ch = r.channels as int;
    assert(0 <= y * w + x) by (nonlinear_arith)
        requires
            0 <= x,
            0 <= y,
            0 <= w,
    ;
    assert(y * w + x + 1 <= h * w) by (nonlinear_arith)
        requires
            0 <= x < w,
            0 <= y < h,
    ;
    assert(0 <= (y * w + x) * ch) by (nonlinear_arith)
        requires
            0 <= y * w + x,
            0 <= ch,
    ;
    assert(y * w + x <= (y * w + x) * ch) by (nonlinear_arith)
        requires
            0 <= y * w + x,
            1 <= ch,
    ;
    assert(0 <= y * w) by (nonlinear_arith)
        requires
            0 <= y,
            0 <= w,
    ;
    assert((y * w + x) * ch + ch <= w * h * ch) by (nonlinear_arith)
        requires
            y * w + x + 1 <= h * w,
            0 <= ch,
    ;
}

impl Pixels {
    fn filled(width: u32, height: u32, channels: u32) -> (p: Pixels)
        requires
            channels == 3 || channels == 4,
            width * height * channels <= u32::MAX,
        ensures
            p@.wf(),
            p@.width == width,
            p@.height == height,
            p@.channels == channels,
            forall|i: int| 0 <= i < p@.bytes.len() ==> p@.bytes[i] == 255,
    {
        assert(width * height <= width * height * channels) by (nonlinear_arith)
            requires
                channels >= 1,
        ;
        let size = (width * height * channels) as usize;
        let mut data: Vec<u8> = Vec::new();
        let mut i: usize = 0;
        while i < size
            invariant
                i <= size,
                data@.len() == i,
                forall|j: int| 0 <= j < i ==> data@[j] == 255,
            decreases size - i,
        {
            data.push(255);
            i = i + 1;
        }
        Pixels { width, height, channels, data }
    }

    /// A white buffer of `width` by `height` pixels, three bytes each.
    pub fn new(width: u32, height: u32) -> (p: Pixels)
        requires
            width * height * 3 <= u32::MAX,
        ensures
            p@.wf(),
            p@.width == width,
            p@.height == height,
            p@.channels == 3,
            forall|i: int| 0 <= i < p@.bytes.len() ==> p@.bytes[i] == 255,
    {
        Pixels::filled(width, height, 3)
    }

    /// A white, opaque buffer of `width` by `height` pixels, four bytes each.
    pub fn with_alpha(width: u32, height: u32) -> (p: Pixels)
        requires
            width * height * 4 <= u32::MAX,
        ensures
            p@.wf(),
            p@.width == width,
            p@.height == height,
            p@.channels == 4,
            forall|i: int| 0 <= i < p@.bytes.len() ==> p@.bytes[i] == 255,
    {
        Pixels::filled(width, height, 4)
    }

    pub fn width(&self) -> (r: u32)
        ensures
            r == self@.width,
    {
        self.width
    }

    pub fn height(&self) -> (r: u32)
        ensures
            r == self@.height,
    {
        self.height
    }

    /// The bytes, row by row from the top left.
    pub fn data(&self) -> (r: &Vec<u8>)
        ensures
            r@ == self@.bytes,
    {
        &self.data
    }

    /// The buffer as a PNG stream: RGB for three bytes per pixel, RGBA for four.
    pub fn to_png(&self) -> (r: Result<Vec<u8>, ImageError>)
        requires
            self@.wf(),
        ensures
            r is Ok ==> r->Ok_0@ == png_stream(
                self@.width as u32,
                self@.height as u32,
                self@.channels == 4,
                self@.bytes,
            ),
            self@.width == 0 || self@.height == 0 ==> r is Err,
            self@.width > 0 && self@.height > 0 ==> r is Ok,
    {
        match encode_png(self.width, self.height, self.channels == 4, &self.data) {
            Ok(bytes) => Ok(bytes),
            Err(_) => Err(ImageError::Encoding),
        }
    }

    /// Fills with `rgb` every pixel of the buffer whose column lies in
    /// `x..=x + w` and whose row lies in `y..=y + h`; the part of that
    /// rectangle outside the buffer is left out. Alpha bytes are kept.
    pub fn rect(&mut self, x: u32, y: u32, w: u32, h: u32, rgb: RgbBytes)
        requires
            old(self)@.wf(),
        ensures
            final(self)@.wf(),
            final(self)@.same_shape(old(self)@),
            forall|px: int, py: int|
                #![trigger final(self)@.pixel(px, py)]
                old(self)@.contains(px, py) ==> final(self)@.pixel(px, py) == if in_rect(
                    x as int,
                    y as int,
                    w as int,
                    h as int,
                    px,
                    py,
                ) {
                    rgb@
                } else {
                    old(self)@.pixel(px, py)
                },
            forall|px: int, py: int, c: int|
                #![trigger final(self)@.at(px, py, c)]
                old(self)@.contains(px, py) && 3 <= c < old(self)@.channels
                    ==> final(self)@.at(px, py, c) == old(self)@.at(px, py, c),
    {
        let ghost before = self@;
        let x_last: u64 = x as u64 + w as u64;
        let y_last: u64 = y as u64 + h as u64;
        let mut px: u64 = x as u64;
        while px <= x_last && px < self.width as u64
            invariant
                self@.wf(),
                self@.same_shape(before),
                x_last == x + w,
                y_last == y + h,
                x <= px <= x_last + 1,
                forall|qx: int, qy: int|
                    #![trigger self@.pixel(qx, qy)]
                    before.contains(qx, qy) ==> self@.pixel(qx, qy) == if x <= qx < px && y <= qy
                        <= y_last {
                        rgb@
                    } else {
                        before.pixel(qx, qy)
                    },
                forall|qx: int, qy: int, c: int|
                    #![trigger self@.at(qx, qy, c)]
                    before.contains(qx, qy) && 3 <= c < before.channels ==> self@.at(qx, qy, c)
                        == before.at(qx, qy, c),
            decreases self@.width - px,
        {
            let mut py: u64 = y as u64;
            while py <= y_last && py < self.height as u64
                invariant
                    self@.wf(),
                    self@.same_shape(before),
                    x_last == x + w,
                    y_last == y + h,
                    x <= px <= x_last,
                    px < self@.width,
                    y <= py <= y_last + 1,
                    forall|qx: int, qy: int|
                        #![trigger self@.pixel(qx, qy)]
                        before.contains(qx, qy) ==> self@.pixel(qx, qy) == if (x <= qx < px && y
                            <= qy <= y_last) || (qx == px && y <= qy < py) {
                            rgb@
                        } else {
                            before.pixel(qx, qy)
                        },
                    forall|qx: int, qy: int, c: int|
                        #![trigger self@.at(qx, qy, c)]
                        before.contains(qx, qy) && 3 <= c < before.channels ==> self@.at(qx, qy, c)
                            == before.at(qx, qy, c),
                decreases self@.height - py,
            {
                let ghost mid = self@;
                self.set(px as u32, py as u32, rgb);
                assert forall|qx: int, qy: int|
                    #![trigger self@.pixel(qx, qy)]
                    mid.contains(qx, qy) && !(qx == px && qy == py) implies self@.pixel(qx, qy)
                        == mid.pixel(qx, qy) by {
                    assert(self@.at(qx, qy, 0) == mid.at(qx, qy, 0));
                    assert(self@.at(qx, qy, 1) == mid.at(qx, qy, 1));
                    assert(self@.at(qx, qy, 2) == mid.at(qx, qy, 2));
                }
                py = py + 1;
            }
            px = px + 1;
        }
    }

    /// Writes `rgb` into the pixel at column `x` and row `y`; every other
    /// byte, the pixel's alpha included, stays as it was.
    pub fn set(&mut self, x: u32, y: u32, rgb: RgbBytes)
        requires
            old(self)@.wf(),
            old(self)@.contains(x as int, y as int),
        ensures
            final(self)@.wf(),
            final(self)@.same_shape(old(self)@),
            final(self)@.bytes == old(self)@.bytes
                .update(old(self)@.offset(x as int, y as int), rgb[0])
                .update(old(self)@.offset(x as int, y as int) + 1, rgb[1])
                .update(old(self)@.offset(x as int, y as int) + 2, rgb[2]),
            final(self)@.pixel(x as int, y as int) == rgb@,
            forall|px: int, py: int, c: int|
                #![trigger final(self)@.at(px, py, c)]
                old(self)@.contains(px, py) && 0 <= c < old(self)@.channels
                    && !(px == x && py == y && c < 3)
                    ==> final(self)@.at(px, py, c) == old(self)@.at(px, py, c),
    {
        proof {
            lemma_offset_in_bounds(self@, x as int, y as int);
        }
        let ghost before = self@;
        let index = ((y * self.width + x) * self.channels) as usize;
        self.data[index] = rgb[0];
        self.data[index + 1] = rgb[1];
        self.data[index + 2] = rgb[2];
        assert(self@.pixel(x as int, y as int) =~= rgb@);
        assert forall|px: int, py: int, c: int|
            #![trigger self@.at(px, py, c)]
            before.contains(px, py) && 0 <= c < before.channels
                && !(px == x && py == y && c < 3)
                implies self@.at(px, py, c) == before.at(px, py, c) by {
            lemma_offset_in_bounds(before, px, py);
            if before.offset(px, py) + c == before.offset(x as int, y as int) + 0 {
                lemma_offset_unique(before.width as int, before.channels as int, px, py, c, x as int, y as int, 0);
            }
            if before.offset(px, py) + c == before.offset(x as int, y as int) + 1 {
                lemma_offset_unique(before.width as int, before.channels as int, px, py, c, x as int, y as int, 1);
            }
            if before.offset(px, py) + c == before.offset(x as int, y as int) + 2 {
                lemma_offset_unique(before.width as int, before.channels as int, px, py, c, x as int, y as int, 2);
            }
        }
    }
}

} // verus!
