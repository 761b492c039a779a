//! The RGBA8 [`Image`] a headless render produces, and the row unpadding
//! that turns a GPU readback buffer into it.
use vstd::prelude::*;

verus! {

/// An RGBA8 image produced by a headless render.
#[derive(Debug, Clone)]
pub struct Image {
    /// Width, in pixels.
    pub width: u32,
    /// Height, in pixels.
    pub height: u32,
    /// Row-major `RGBA8` pixels: `4 * width * height` bytes, no row padding.
    pub pixels: Vec<u8>,
}

/// The byte offset of pixel `(x, y)` in a tightly packed RGBA8 image of
/// the given width.
pub open spec fn pixel_offset(width: int, x: int, y: int) -> int {
    4 * (y * width + x)
}

impl Image {
    /// Whether the pixel buffer holds exactly `width * height` RGBA8 pixels.
    pub open spec fn wf(&self) -> bool {
        self.pixels@.len() == 4 * self.width * self.height
    }

    /// The `RGBA8` bytes of the pixel at `(x, y)`. The buffer must reach
    /// past that pixel (a longer buffer is fine); the pixel's byte offset is
    /// computed in 32 bits, so the image must hold at most `2^30` pixels.
    pub fn pixel(&self, x: u32, y: u32) -> (r: [u8; 4])
        requires
            pixel_offset(self.width as int, x as int, y as int) + 4 <= self.pixels@.len(),
            x < self.width,
            y < self.height,
            4 * self.width * self.height <= 0x1_0000_0000,
        ensures
            forall|k: int|
                0 <= k < 4 ==> r[k] == self.pixels@[pixel_offset(self.width as int, x as int, y as int) + k],
    {
        proof {
            let w = self.width as int;
            let h = self.height as int;
            assert(0 <= y * w + x && (y * w + x) * 4 + 4 <= 4 * w * h) by (nonlinear_arith)
                requires
                    0 <= x < w,
                    0 <= y < h,
            ;
            assert(0 <= y * w <= y * w + x);
        }
        let i = ((y * self.width + x) * 4) as usize;
        [self.pixels[i], self.pixels[i + 1], self.pixels[i + 2], self.pixels[i + 3]]
    }
}

/// The first `rows` rows of a buffer whose rows start every `stride`
/// bytes, each cut to its first `row_bytes` bytes and joined.
pub open spec fn unpadded(data: Seq<u8>, row_bytes: int, stride: int, rows: int) -> Seq<u8>
    decreases rows,
{
    if rows <= 0 {
        Seq::empty()
    } else {
        unpadded(data, row_bytes, stride, rows - 1) + data.subrange((rows - 1) * stride, (rows - 1)
            * stride + row_bytes)
    }
}

proof fn lemma_unpadded_len(data: Seq<u8>, row_bytes: int, stride: int, rows: int)
    requires
        0 <= row_bytes <= stride,
        rows >= 0,
        rows == 0 || (rows - 1) * stride + row_bytes <= data.len(),
    ensures
        unpadded(data, row_bytes, stride, rows).len() == rows * row_bytes,
    decreases rows,
{
    if rows > 0 {
        if rows > 1 {
            assert((rows - 2) * stride + row_bytes <= (rows - 1) * stride + row_bytes) by (nonlinear_arith)
                requires
                    rows >= 2,
                    stride >= 0,
            ;
        }
        assert((rows - 1) * stride >= 0) by (nonlinear_arith)
            requires
                rows >= 1,
                stride >= 0,
        ;
        lemma_unpadded_len(data, row_bytes, stride, rows - 1);
        assert(rows * row_bytes == (rows - 1) * row_bytes + row_bytes) by (nonlinear_arith);
    }
}

/// Copy the rows of a GPU readback buffer, whose rows start every
/// `padded_bytes_per_row` bytes, into a tightly packed row-major `RGBA8`
/// buffer of `width * height` pixels.
pub fn unpad_rows(mapped: &[u8], width: u32, height: u32, padded_bytes_per_row: u32) -> (r: Vec<u8>)
    requires
        4 * width <= padded_bytes_per_row,
        height == 0 || (height - 1) * padded_bytes_per_row + 4 * width <= mapped@.len(),
    ensures
        r@ == unpadded(mapped@, 4 * width, padded_bytes_per_row as int, height as int),
        r@.len() == 4 * width * height,
{
    let row_bytes = (width * 4) as usize;
    let stride = padded_bytes_per_row as usize;
    let total = mapped.len();
    let mut pixels: Vec<u8> = Vec::new();
    let mut row: usize = 0;
    while row < height as usize
        invariant
            row <= height,
            row_bytes == 4 * width,
            stride == padded_bytes_per_row,
            row_bytes <= stride,
            total == mapped@.len(),
            height == 0 || (height - 1) * stride + row_bytes <= mapped@.len(),
            pixels@ == unpadded(mapped@, row_bytes as int, stride as int, row as int),
        decreases height - row,
    {
        proof {
            assert(row * stride <= (height - 1) * stride) by (nonlinear_arith)
                requires
                    row <= height - 1,
                    stride >= 0,
            ;
            assert(row * stride >= 0) by (nonlinear_arith)
                requires
                    row >= 0,
                    stride >= 0,
            ;
            assert((height - 1) * stride == (height - 1) * padded_bytes_per_row);
            assert(row * stride + row_bytes <= mapped@.len());
        }
        let start = row * stride;
        let ghost before = pixels@;
        let mut c: usize = 0;
        while c < row_bytes
            invariant
                c <= row_bytes,
                start + row_bytes <= mapped@.len(),
                total == mapped@.len(),
                pixels@ == before + mapped@.subrange(start as int, start + c),
            decreases row_bytes - c,
        {
            pixels.push(mapped[start + c]);
            proof {
                assert(mapped@.subrange(start as int, start + c + 1) =~= mapped@.subrange(
                    start as int,
                    start + c,
                ).push(mapped@[start + c]));
            }
            c = c + 1;
        }
        row = row + 1;
    }
    proof {
        lemma_unpadded_len(mapped@, row_bytes as int, stride as int, height as int);
        assert(4 * width * height == height * (4 * width)) by (nonlinear_arith);
    }
    pixels
}

} // verus!
