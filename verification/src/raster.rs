//! Packed 8-bit RGB rasters and the four-band colour sampler.

use vstd::prelude::*;

verus! {

/// One colour with 8 bits per channel. The channel value `v` stands for the
/// normalised intensity `v / 255`.
#[derive(Clone, Copy, Debug, PartialEq, Eq, Structural)]
pub struct Color {
    pub red: u8,
    pub green: u8,
    pub blue: u8,
}

/// The band height for an image of the given height: a quarter, rounded down.
pub open spec fn band_height(height: int) -> int {
    height / 4
}

/// The column every band is sampled at: the horizontal centre.
pub open spec fn sample_column(width: int) -> int {
    width / 2
}

/// The row band `band` is sampled at: the centre of the band, never below the
/// last row.
pub open spec fn sample_row(height: int, band: int) -> int {
    let centre = band_height(height) * band + band_height(height) / 2;
    if centre < height - 1 {
        centre
    } else {
        height - 1
    }
}

/// Every band of a non-empty image is sampled at a row inside the image,
/// whether or not the height is a multiple of four.
pub proof fn lemma_sample_row_in_bounds(height: int, band: int)
    requires
        height > 0,
        0 <= band < 4,
    ensures
        0 <= sample_row(height, band) < height,
{
    assert(band_height(height) * band >= 0) by (nonlinear_arith)
        requires
            band_height(height) >= 0,
            band >= 0,
    ;
}

/// The colour at column `x` of row `y` in a row-major buffer of packed RGB
/// pixels that is `width` pixels wide.
pub open spec fn pixel_at(data: Seq<u8>, width: int, x: int, y: int) -> Color {
    let at = 3 * (y * width + x);
    Color { red: data[at], green: data[at + 1], blue: data[at + 2] }
}

/// The four colours sampled from a buffer of the given dimensions: for each
/// of the four horizontal bands, the pixel at the centre column and at the
/// band's sample row.
pub open spec fn sampled_from(data: Seq<u8>, width: int, height: int) -> Seq<Color> {
    Seq::new(4, |band: int| pixel_at(data, width, sample_column(width), sample_row(height, band)))
}

/// The three bytes of the pixel at `(x, y)` lie inside a buffer that holds
/// three bytes for each of its `width * height` pixels.
pub proof fn lemma_pixel_offset(width: int, height: int, x: int, y: int)
    requires
        0 <= x < width,
        0 <= y < height,
    ensures
        0 <= y * width,
        0 <= y * width + x < width * height,
        3 * (y * width + x) + 3 <= 3 * (width * height),
{
    assert(0 <= y * width && y * width + width <= width * height) by (nonlinear_arith)
        requires
            0 <= y < height,
            0 < width,
    ;
}

/// A row-major raster of packed RGB pixels, 8 bits per channel.
pub struct RgbImage {
    width: u32,
    height: u32,
    data: Vec<u8>,
}

impl RgbImage {
    /// The buffer holds at least three bytes for every pixel.
    #[verifier::type_invariant]
    pub closed spec fn wf(&self) -> bool {
        3 * (self.width * self.height) <= self.data@.len()
    }

    pub closed spec fn spec_width(&self) -> int {
        self.width as int
    }

    pub closed spec fn spec_height(&self) -> int {
        self.height as int
    }

    /// The raw bytes, row after row.
    pub closed spec fn bytes(&self) -> Seq<u8> {
        self.data@
    }

    /// The colour stored at column `x` of row `y`.
    pub open spec fn pixel(&self, x: int, y: int) -> Color {
        pixel_at(self.bytes(), self.spec_width(), x, y)
    }

    /// Wraps a buffer as an image if it is long enough for the dimensions.
    pub fn from_raw(width: u32, height: u32, data: Vec<u8>) -> (image: Option<RgbImage>)
        ensures
            image is Some <==> 3 * (width * height) <= data@.len(),
            image matches Some(img) ==> img.spec_width() == width && img.spec_height() == height
                && img.bytes() == data@,
    {
        assert(width * height <= 0xffff_ffff * 0xffff_ffff) by (nonlinear_arith)
            requires
                0 <= width <= 0xffff_ffff,
                0 <= height <= 0xffff_ffff,
        ;
        let pixels: u64 = (width as u64) * (height as u64);
        let needed: u128 = 3u128 * (pixels as u128);
        if needed <= data.len() as u128 {
            Some(RgbImage { width, height, data })
        } else {
            None
        }
    }

    /// Reads the pixel at column `x` of row `y`.
    pub fn get_pixel(&self, x: u32, y: u32) -> (color: Color)
        requires
            x < self.spec_width(),
            y < self.spec_height(),
        ensures
            color == self.pixel(x as int, y as int),
    {
        let row: usize = y as usize;
        let stride: usize = self.width as usize;
        let len: usize = self.data.len();
        proof {
            use_type_invariant(self);
            lemma_pixel_offset(self.width as int, self.height as int, x as int, y as int);
            assert(row * stride == y * self.width) by (nonlinear_arith)
                requires
                    row == y,
                    stride == self.width,
            ;
        }
        assert(3 * (row * stride + x) + 3 <= len);
        let at: usize = 3 * (row * stride + (x as usize));
        Color { red: self.data[at], green: self.data[at + 1], blue: self.data[at + 2] }
    }

    /// The four colours the sampler reads from this image, band by band.
    pub open spec fn sampled(&self) -> Seq<Color> {
        sampled_from(self.bytes(), self.spec_width(), self.spec_height())
    }

    /// Gives the buffer back.
    pub fn into_raw(self) -> (data: Vec<u8>)
        ensures
            data@ == self.bytes(),
    {
        self.data
    }

    pub fn width(&self) -> (w: u32)
        ensures
            w == self.spec_width(),
    {
        self.width
    }

    pub fn height(&self) -> (h: u32)
        ensures
            h == self.spec_height(),
    {
        self.height
    }
}

/// Lays four colours out as the canonical palette raster: one pixel wide,
/// four pixels tall, colour `i` in row `i`.
pub fn palette_image(colors: &[Color; 4]) -> (image: RgbImage)
    ensures
        image.spec_width() == 1,
        image.spec_height() == 4,
        image.bytes().len() == 12,
        forall|i: int| 0 <= i < 4 ==> image.pixel(0, i) == colors@[i],
        image.sampled() == colors@,
{
    let mut data: Vec<u8> = Vec::new();
    let mut i: usize = 0;
    while i < 4
        invariant
            0 <= i <= 4,
            data@.len() == 3 * i,
            forall|k: int|
                #![trigger colors@[k]]
                0 <= k < i ==> data@[3 * k] == colors@[k].red && data@[3 * k + 1]
                    == colors@[k].green && data@[3 * k + 2] == colors@[k].blue,
        decreases 4 - i,
    {
        let color = colors[i];
        data.push(color.red);
        data.push(color.green);
        data.push(color.blue);
        i += 1;
    }
    let image = RgbImage { width: 1, height: 4, data };
    proof {
        assert forall|k: int| 0 <= k < 4 implies image.pixel(0, k) == colors@[k] by {
            assert(colors@[k].red == image.bytes()[3 * k]);
        }
        lemma_one_by_four_sampled(image.bytes());
        assert(image.sampled() =~= colors@);
    }
    image
}

/// A raster one pixel wide and four pixels tall is sampled at exactly its
/// four pixels, in row order.
pub proof fn lemma_one_by_four_sampled(data: Seq<u8>)
    ensures
        sampled_from(data, 1, 4) == seq![
            pixel_at(data, 1, 0, 0),
            pixel_at(data, 1, 0, 1),
            pixel_at(data, 1, 0, 2),
            pixel_at(data, 1, 0, 3),
        ],
{
    assert(sampled_from(data, 1, 4) =~= seq![
        pixel_at(data, 1, 0, 0),
        pixel_at(data, 1, 0, 1),
        pixel_at(data, 1, 0, 2),
        pixel_at(data, 1, 0, 3),
    ]);
}

} // verus!
