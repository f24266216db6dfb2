use vstd::prelude::*;

use crate::colour::ColourRgbU8;
use crate::util::Array2D;

verus! {

/// The bytes of a sequence of pixels, three channels after another, pixel after pixel.
pub open spec fn pixel_bytes(pixels: Seq<[u8; 3]>) -> Seq<u8> {
    Seq::new(3 * pixels.len(), |m: int| pixels[m / 3]@[m % 3])
}

/// An image with eight bits for each of the red, green and blue channels of a pixel.
pub struct ImageRgbU8 {
    data: Array2D<[u8; 3]>,
}

impl ImageRgbU8 {
    /// The image holds `height * width` pixels.
    pub closed spec fn wf(self) -> bool {
        self.data.wf()
    }

    /// Number of rows of pixels.
    pub closed spec fn height_spec(self) -> nat {
        self.data.height_spec()
    }

    /// Number of columns of pixels.
    pub closed spec fn width_spec(self) -> nat {
        self.data.width_spec()
    }

    /// The pixels, row after row.
    pub closed spec fn pixels(self) -> Seq<[u8; 3]> {
        self.data@
    }

    /// The pixel in row `row` and column `column`.
    pub open spec fn pixel(self, row: int, column: int) -> [u8; 3] {
        self.pixels()[row * self.width_spec() + column]
    }

    /// Creates a black image `width` pixels wide and `height` pixels high.
    pub fn new(width: usize, height: usize) -> (r: ImageRgbU8)
        requires
            height * width <= usize::MAX,
        ensures
            r.wf(),
            r.width_spec() == width,
            r.height_spec() == height,
            r.pixels().len() == height * width,
            forall|i: int| 0 <= i < r.pixels().len() ==> #[trigger] r.pixels()[i] == [0u8, 0u8, 0u8],
    {
        ImageRgbU8 { data: Array2D::from_elem(height, width, [0u8, 0u8, 0u8]) }
    }

    /// The colour of the pixel in row `row` and column `column`.
    pub fn get_colour(&self, row: usize, column: usize) -> (r: ColourRgbU8)
        requires
            self.wf(),
            row < self.height_spec(),
            column < self.width_spec(),
        ensures
            r.values == self.pixel(row as int, column as int),
    {
        ColourRgbU8 { values: *self.data.get(row, column) }
    }

    /// Sets the colour of the pixel in row `row` and column `column`; every other
    /// pixel keeps its colour.
    pub fn set_colour(&mut self, row: usize, column: usize, colour: ColourRgbU8)
        requires
            old(self).wf(),
            row < old(self).height_spec(),
            column < old(self).width_spec(),
        ensures
            final(self).wf(),
            final(self).height_spec() == old(self).height_spec(),
            final(self).width_spec() == old(self).width_spec(),
            forall|r: int, c: int|
                0 <= r < old(self).height_spec() && 0 <= c < old(self).width_spec()
                    ==> #[trigger] final(self).pixel(r, c) == if r == row && c == column {
                    colour.values
                } else {
                    old(self).pixel(r, c)
                },
    {
        self.data.set(row, column, colour.values);
        proof {
            assert forall|r: int, c: int|
                0 <= r < old(self).height_spec() && 0 <= c < old(self).width_spec()
                    implies #[trigger] self.pixel(r, c) == if r == row && c == column {
                    colour.values
                } else {
                    old(self).pixel(r, c)
                } by {
                assert(self.pixel(r, c) == self.data.cell(r, c));
                assert(old(self).pixel(r, c) == old(self).data.cell(r, c));
            }
        }
    }

    /// The bytes of every pixel, row after row, red, green and blue for each pixel.
    pub fn get_pixel_data(&self) -> (r: Vec<u8>)
        requires
            self.wf(),
        ensures
            r@ == pixel_bytes(self.pixels()),
    {
        let pixels = self.data.as_slice();
        let n = pixels.len();
        let mut bytes: Vec<u8> = Vec::new();
        let mut k: usize = 0;
        while k < n
            invariant
                n == pixels@.len(),
                pixels@ == self.pixels(),
                k <= n,
                bytes@ == pixel_bytes(pixels@.take(k as int)),
            decreases n - k,
        {
            let pixel = pixels[k];
            bytes.push(pixel[0]);
            bytes.push(pixel[1]);
            bytes.push(pixel[2]);
            proof {
                let before = pixels@.take(k as int);
                let after = pixels@.take(k + 1);
                assert forall|m: int| 0 <= m < 3 * after.len() implies #[trigger] bytes@[m] == after[m
                    / 3]@[m % 3] by {
                    if m < 3 * k {
                        lemma_byte_position(m, m / 3, k as int);
                        assert(bytes@[m] == pixel_bytes(before)[m]);
                    } else {
                        lemma_byte_position(m, k as int, k as int + 1);
                    }
                }
                assert(bytes@ =~= pixel_bytes(after));
            }
            k = k + 1;
        }
        proof {
            assert(pixels@.take(n as int) =~= pixels@);
        }
        bytes
    }

    /// Number of columns of pixels.
    pub fn get_width(&self) -> (r: usize)
        ensures
            r == self.width_spec(),
    {
        self.data.get_width()
    }

    /// Number of rows of pixels.
    pub fn get_height(&self) -> (r: usize)
        ensures
            r == self.height_spec(),
    {
        self.data.get_height()
    }

    /// Number of channels of a pixel: red, green and blue.
    pub fn num_channels() -> (r: usize)
        ensures
            r == 3,
    {
        3
    }

    /// Copies `image` into this image with its top-left pixel at `start_row`,
    /// `start_column`; pixels outside that block keep their colour.
    pub fn update(&mut self, start_row: usize, start_column: usize, image: &ImageRgbU8)
        requires
            old(self).wf(),
            image.wf(),
            start_row + image.height_spec() <= old(self).height_spec(),
            start_column + image.width_spec() <= old(self).width_spec(),
        ensures
            final(self).wf(),
            final(self).height_spec() == old(self).height_spec(),
            final(self).width_spec() == old(self).width_spec(),
            forall|r: int, c: int|
                0 <= r < old(self).height_spec() && 0 <= c < old(self).width_spec()
                    ==> #[trigger] final(self).pixel(r, c) == if start_row <= r < start_row
                    + image.height_spec() && start_column <= c < start_column
                    + image.width_spec() {
                    image.pixel(r - start_row, c - start_column)
                } else {
                    old(self).pixel(r, c)
                },
    {
        self.data.update_block(start_row, start_column, &image.data);
        proof {
            assert forall|r: int, c: int|
                0 <= r < old(self).height_spec() && 0 <= c < old(self).width_spec()
                    implies #[trigger] self.pixel(r, c) == if start_row <= r < start_row
                    + image.height_spec() && start_column <= c < start_column
                    + image.width_spec() {
                    image.pixel(r - start_row, c - start_column)
                } else {
                    old(self).pixel(r, c)
                } by {
                assert(self.pixel(r, c) == self.data.cell(r, c));
                assert(old(self).pixel(r, c) == old(self).data.cell(r, c));
                assert(image.pixel(r - start_row, c - start_column) == image.data.cell(
                    r - start_row,
                    c - start_column,
                ));
            }
        }
    }
}

/// Byte `m` of the bytes of the pixels lies in pixel `m / 3`, which is pixel `q`
/// when `m` lies between `3 * q` and `3 * q + 3`.
proof fn lemma_byte_position(m: int, q: int, limit: int)
    requires
        0 <= m,
        3 * q <= m < 3 * q + 3 || q == m / 3,
        m < 3 * limit,
    ensures
        m / 3 == q,
        0 <= m % 3 < 3,
        q < limit,
{
}

/// Byte `3 * (row * width + column) + channel` of an image's pixel data is
/// channel `channel` of the pixel in row `row` and column `column`.
pub proof fn lemma_pixel_data_layout(image: ImageRgbU8, row: int, column: int, channel: int)
    requires
        image.wf(),
        0 <= row < image.height_spec(),
        0 <= column < image.width_spec(),
        0 <= channel < 3,
    ensures
        pixel_bytes(image.pixels()).len() == 3 * image.height_spec() * image.width_spec(),
        pixel_bytes(image.pixels())[3 * (row * image.width_spec() + column) + channel] == image.pixel(
            row,
            column,
        )@[channel],
{
    let w = image.width_spec() as int;
    let h = image.height_spec() as int;
    image.data.lemma_len();
    assert(0 <= row * w + column < h * w) by (nonlinear_arith)
        requires
            0 <= row < h,
            0 <= column < w,
    ;
    assert(3 * h * w == 3 * (h * w)) by (nonlinear_arith);
    let m = 3 * (row * w + column) + channel;
    lemma_byte_position(m, row * w + column, h * w);
}

} // verus!
