//! The 8-bit RGB raster that a render fills row by row, and its encoding as
//! a PNG file once every row is in.

use vstd::prelude::*;

verus! {

/// One pixel as it is stored: 8 bits for each of red, green and blue.
#[derive(Clone, Copy, Debug, PartialEq, Eq, Structural)]
pub struct Rgb8 {
    pub red: u8,
    pub green: u8,
    pub blue: u8,
}

/// Why a raster could not be made or encoded.
#[derive(Clone, Copy, Debug, PartialEq, Eq, Structural)]
pub enum RasterError {
    /// The width or the height is zero.
    EmptyImage,
    /// A side does not fit the 32 bits of the PNG header, or the buffer's
    /// length does not fit in memory.
    TooLarge,
    /// Some row has not been rendered yet.
    Incomplete,
    /// The PNG encoder refused the image; it accepts every complete raster.
    Encoding,
}

/// Bytes taken by one row of `width` pixels.
pub open spec fn row_len(width: int) -> int {
    3 * width
}

/// Index of the first byte of row `y`.
pub open spec fn row_start(width: int, y: int) -> int {
    row_len(width) * y
}

/// Index one past the last byte of row `y`.
pub open spec fn row_end(width: int, y: int) -> int {
    row_len(width) * (y + 1)
}

/// Index of the red byte of pixel `(x, y)`; green and blue follow it. Rows
/// run from the top of the image, pixels in a row from the left.
pub open spec fn pixel_index(width: int, x: int, y: int) -> int {
    row_start(width, y) + 3 * x
}

/// The pixel whose red byte stands at `i` in `data`.
pub open spec fn pixel_in(data: Seq<u8>, i: int) -> Rgb8 {
    Rgb8 { red: data[i], green: data[i + 1], blue: data[i + 2] }
}

/// Rows tile the buffer: every byte of an image of `width` by `height` pixels
/// lies in the span of exactly one row, the row `i / (3 * width)`.
pub proof fn lemma_rows_tile(width: int, height: int, i: int)
    requires
        width > 0,
        height > 0,
        0 <= i < row_len(width) * height,
    ensures
        0 <= i / row_len(width) < height,
        row_start(width, i / row_len(width)) <= i < row_end(width, i / row_len(width)),
        forall|y: int|
            #[trigger] row_start(width, y) <= i < row_end(width, y) ==> y == i / row_len(width),
{
    let w = row_len(width);
    let q = i / w;
    vstd::arithmetic::div_mod::lemma_fundamental_div_mod(i, w);
    assert(0 <= i % w < w) by {
        vstd::arithmetic::div_mod::lemma_mod_bound(i, w);
    }
    assert(0 <= q) by {
        vstd::arithmetic::div_mod::lemma_div_pos_is_pos(i, w);
    }
    assert(q < height) by (nonlinear_arith)
        requires
            i == w * q + i % w,
            0 <= i % w,
            i < w * height,
            w > 0,
    ;
    assert(w * (q + 1) == w * q + w) by (nonlinear_arith);
    assert forall|y: int| #[trigger] row_start(width, y) <= i < row_end(width, y) implies y == q by {
        assert(w * (y + 1) == w * y + w) by (nonlinear_arith);
        if y < q {
            assert(w * y + w <= w * q) by (nonlinear_arith)
                requires
                    y < q,
                    w > 0,
            ;
        } else if y > q {
            assert(w * q + w <= w * y) by (nonlinear_arith)
                requires
                    y > q,
                    w > 0,
            ;
        }
    }
}

/// A pixel's three bytes lie inside its own row, and two different pixels
/// share no byte.
pub proof fn lemma_pixels_apart(width: int, x1: int, y1: int, x2: int, y2: int)
    requires
        width > 0,
        0 <= x1 < width,
        0 <= x2 < width,
        0 <= y1,
        0 <= y2,
        x1 != x2 || y1 != y2,
    ensures
        row_start(width, y1) <= pixel_index(width, x1, y1),
        pixel_index(width, x1, y1) + 3 <= row_end(width, y1),
        pixel_index(width, x1, y1) + 3 <= pixel_index(width, x2, y2) || pixel_index(
            width,
            x2,
            y2,
        ) + 3 <= pixel_index(width, x1, y1),
{
    let w = row_len(width);
    assert(w * (y1 + 1) == w * y1 + w) by (nonlinear_arith);
    assert(w * (y2 + 1) == w * y2 + w) by (nonlinear_arith);
    if y1 < y2 {
        assert(w * y1 + w <= w * y2) by (nonlinear_arith)
            requires
                y1 < y2,
                w > 0,
        ;
    } else if y2 < y1 {
        assert(w * y2 + w <= w * y1) by (nonlinear_arith)
            requires
                y2 < y1,
                w > 0,
        ;
    }
}

/// What a raster holds: its size in pixels, its bytes (three for each pixel,
/// row after row) and which rows have been written.
pub struct RasterView {
    pub width: nat,
    pub height: nat,
    pub bytes: Seq<u8>,
    pub done: Seq<bool>,
}

impl RasterView {
    /// The size fits a PNG header and memory, and the bytes and the row marks
    /// match it.
    pub open spec fn wf(self) -> bool {
        &&& 0 < self.width <= u32::MAX
        &&& 0 < self.height <= u32::MAX
        &&& row_len(self.width as int) * self.height <= usize::MAX
        &&& self.bytes.len() == row_len(self.width as int) * self.height
        &&& self.done.len() == self.height
    }

    /// Every row has been written.
    pub open spec fn complete(self) -> bool {
        forall|y: int| 0 <= y < self.height ==> #[trigger] self.done[y]
    }

    /// The pixel in column `x` of row `y`.
    pub open spec fn pixel(self, x: int, y: int) -> Rgb8 {
        pixel_in(self.bytes, pixel_index(self.width as int, x, y))
    }
}

/// What keeps a raster of `width` by `height` pixels from being made, if
/// anything does.
pub open spec fn raster_error(width: nat, height: nat) -> Option<RasterError> {
    if width == 0 || height == 0 {
        Some(RasterError::EmptyImage)
    } else if width > u32::MAX || height > u32::MAX || row_len(width as int) * height
        > usize::MAX {
        Some(RasterError::TooLarge)
    } else {
        None
    }
}

/// The 8-bit RGB pixels of an image, row after row from the top; each row is
/// written once, and the image can be encoded when all rows are in.
pub struct Raster {
    width: usize,
    height: usize,
    data: Vec<u8>,
    done: Vec<bool>,
}

impl View for Raster {
    type V = RasterView;

    closed spec fn view(&self) -> RasterView {
        RasterView {
            width: self.width as nat,
            height: self.height as nat,
            bytes: self.data@,
            done: self.done@,
        }
    }
}

impl Raster {
    #[verifier::type_invariant]
    spec fn inv(&self) -> bool {
        self@.wf()
    }

    /// A black raster of `width` by `height` pixels with no row written.
    pub fn new(width: usize, height: usize) -> (r: Result<Raster, RasterError>)
        ensures
            match raster_error(width as nat, height as nat) {
                Some(e) => r is Err && r->Err_0 == e,
                None => r is Ok && r->Ok_0@ == (RasterView {
                    width: width as nat,
                    height: height as nat,
                    bytes: Seq::new((3 * width * height) as nat, |i: int| 0u8),
                    done: Seq::new(height as nat, |i: int| false),
                }),
            },
    {
        if width == 0 || height == 0 {
            return Err(RasterError::EmptyImage);
        }
        if width > 0xffff_ffff || height > 0xffff_ffff {
            return Err(RasterError::TooLarge);
        }
        let len = match width.checked_mul(3) {
            Some(w3) => match w3.checked_mul(height) {
                Some(n) => n,
                None => {
                    return Err(RasterError::TooLarge);
                },
            },
            None => {
                proof {
                    assert(3 * width * height >= 3 * width) by (nonlinear_arith)
                        requires
                            height >= 1,
                            width >= 0,
                    ;
                }
                return Err(RasterError::TooLarge);
            },
        };
        let mut data: Vec<u8> = Vec::new();
        while data.len() < len
            invariant
                data@.len() <= len,
                forall|i: int| 0 <= i < data@.len() ==> data@[i] == 0u8,
            decreases len - data@.len(),
        {
            data.push(0u8);
        }
        let mut done: Vec<bool> = Vec::new();
        while done.len() < height
            invariant
                done@.len() <= height,
                forall|i: int| 0 <= i < done@.len() ==> !done@[i],
            decreases height - done@.len(),
        {
            done.push(false);
        }
        let r = Raster { width, height, data, done };
        proof {
            assert(r@.bytes =~= Seq::new((3 * width * height) as nat, |i: int| 0u8));
            assert(r@.done =~= Seq::new(height as nat, |i: int| false));
        }
        Ok(r)
    }

    /// Width in pixels.
    pub fn width(&self) -> (r: usize)
        ensures
            r == self@.width,
    {
        self.width
    }

    /// Height in pixels.
    pub fn height(&self) -> (r: usize)
        ensures
            r == self@.height,
    {
        self.height
    }

    /// The bytes: red, green and blue of each pixel, row after row.
    pub fn bytes(&self) -> (r: &Vec<u8>)
        ensures
            r@ == self@.bytes,
    {
        &self.data
    }

    /// The span of bytes that row `y` occupies, end excluded.
    pub fn row_span(&self, y: usize) -> (r: (usize, usize))
        requires
            y < self@.height,
        ensures
            r.0 == row_start(self@.width as int, y as int),
            r.1 == row_end(self@.width as int, y as int),
    {
        proof {
            use_type_invariant(&*self);
        }
        proof {
            let w = row_len(self.width as int);
            assert(w * (y + 1) <= w * self.height) by (nonlinear_arith)
                requires
                    y < self.height,
                    w > 0,
            ;
            assert(w * y <= w * (y + 1)) by (nonlinear_arith)
                requires
                    w > 0,
            ;
            assert(w <= w * self.height) by (nonlinear_arith)
                requires
                    self.height >= 1,
                    w > 0,
            ;
        }
        (3 * self.width * y, 3 * self.width * (y + 1))
    }

    /// Whether row `y` has been written.
    pub fn row_done(&self, y: usize) -> (r: bool)
        requires
            y < self@.height,
        ensures
            r == self@.done[y as int],
    {
        proof {
            use_type_invariant(&*self);
        }
        self.done[y]
    }

    /// The pixel in column `x` of row `y`.
    pub fn pixel(&self, x: usize, y: usize) -> (r: Rgb8)
        requires
            x < self@.width,
            y < self@.height,
        ensures
            r == self@.pixel(x as int, y as int),
    {
        proof {
            use_type_invariant(&*self);
        }
        let i = self.pixel_offset(x, y);
        Rgb8 { red: self.data[i], green: self.data[i + 1], blue: self.data[i + 2] }
    }

    fn pixel_offset(&self, x: usize, y: usize) -> (r: usize)
        requires
            x < self@.width,
            y < self@.height,
        ensures
            r == pixel_index(self@.width as int, x as int, y as int),
            r + 3 <= row_end(self@.width as int, y as int),
            row_end(self@.width as int, y as int) <= self@.bytes.len(),
    {
        proof {
            use_type_invariant(&*self);
        }
        proof {
            let w = row_len(self.width as int);
            assert(w * (y + 1) <= w * self.height) by (nonlinear_arith)
                requires
                    y < self.height,
                    w > 0,
            ;
            assert(w * (y + 1) == w * y + w) by (nonlinear_arith);
            assert(w <= w * self.height) by (nonlinear_arith)
                requires
                    self.height >= 1,
                    w > 0,
            ;
        }
        3 * self.width * y + 3 * x
    }

    /// Writes row `y` from `row`, its pixels from the left; no other byte
    /// changes, and the row is marked as written.
    pub fn set_row(&mut self, y: usize, row: &Vec<Rgb8>)
        requires
            y < old(self)@.height,
            row@.len() == old(self)@.width,
            !old(self)@.done[y as int],
        ensures
            final(self)@.width == old(self)@.width,
            final(self)@.height == old(self)@.height,
            final(self)@.bytes.len() == old(self)@.bytes.len(),
            final(self)@.done == old(self)@.done.update(y as int, true),
            forall|x: int| 0 <= x < row@.len() ==> #[trigger] final(self)@.pixel(x, y as int) == row@[x],
            forall|i: int|
                0 <= i < old(self)@.bytes.len() && !(row_start(old(self)@.width as int, y as int)
                    <= i < row_end(old(self)@.width as int, y as int)) ==> #[trigger] final(self)@.bytes[i]
                    == old(self)@.bytes[i],
    {
        proof {
            use_type_invariant(&*self);
        }
        let ghost start = row_start(self.width as int, y as int);
        let ghost end = row_end(self.width as int, y as int);
        let ghost before = self.data@;
        let mut x: usize = 0;
        while x < self.width
            invariant
                self.width == old(self).width,
                self.height == old(self).height,
                self.done == old(self).done,
                self.data@.len() == before.len(),
                before == old(self).data@,
                old(self)@.wf(),
                y < self.height,
                row@.len() == self.width,
                x <= self.width,
                start == row_start(self.width as int, y as int),
                end == row_end(self.width as int, y as int),
                forall|x2: int|
                    0 <= x2 < x ==> #[trigger] pixel_in(
                        self.data@,
                        pixel_index(self.width as int, x2, y as int),
                    ) == row@[x2],
                forall|i: int|
                    0 <= i < before.len() && !(start <= i < start + 3 * x) ==> #[trigger] self.data@[i]
                        == before[i],
            decreases self.width - x,
        {
            let i = self.pixel_offset(x, y);
            let p = row[x];
            let ghost prev = self.data@;
            self.data[i] = p.red;
            self.data[i + 1] = p.green;
            self.data[i + 2] = p.blue;
            proof {
                assert forall|x2: int| 0 <= x2 <= x implies #[trigger] pixel_in(
                    self.data@,
                    pixel_index(self.width as int, x2, y as int),
                ) == row@[x2] by {
                    if x2 < x {
                        assert(pixel_in(prev, pixel_index(self.width as int, x2, y as int))
                            == row@[x2]);
                    }
                }
            }
            x = x + 1;
        }
        self.done[y] = true;
        proof {
            assert(start + 3 * self.width == end) by (nonlinear_arith)
                requires
                    start == 3 * self.width * y,
                    end == 3 * self.width * (y + 1),
            ;
        }
    }

    /// The image as a PNG file: 8-bit RGB, no alpha, no metadata. Refused
    /// while some row is still unwritten.
    pub fn encode_png(&self) -> (r: Result<Vec<u8>, RasterError>)
        ensures
            !self@.complete() ==> r is Err && r->Err_0 == RasterError::Incomplete,
            self@.complete() ==> r is Ok && r->Ok_0@ == png_rgb8(
                self@.width,
                self@.height,
                self@.bytes,
            ),
    {
        proof {
            use_type_invariant(&*self);
        }
        if !self.is_complete() {
            return Err(RasterError::Incomplete);
        }
        match encode_rgb8(self.width as u32, self.height as u32, &self.data) {
            Ok(bytes) => Ok(bytes),
            Err(_) => Err(RasterError::Encoding),
        }
    }

    /// Whether every row has been written.
    pub fn is_complete(&self) -> (r: bool)
        ensures
            r == self@.complete(),
    {
        proof {
            use_type_invariant(&*self);
        }
        let mut y: usize = 0;
        while y < self.height
            invariant
                self@.wf(),
                y <= self.height,
                forall|j: int| 0 <= j < y ==> #[trigger] self.done@[j],
            decreases self.height - y,
        {
            if !self.done[y] {
                return false;
            }
            y = y + 1;
        }
        true
    }
}

#[verifier::external_type_specification]
#[verifier::external_body]
pub struct ExEncodingError(png::EncodingError);

/// The PNG file that png's encoder writes for an 8-bit RGB image of `width`
/// by `height` pixels whose rows are `data`; it depends on these alone.
pub uninterp spec fn png_rgb8(width: nat, height: nat, data: Seq<u8>) -> Seq<u8>;

/// Relies on png's `Encoder::new`, `Encoder::set_color`, `Encoder::set_depth`,
/// `Encoder::write_header` and `Writer::write_image_data` (the end chunk is
/// written when the writer drops), writing into memory. The header refuses a
/// zero width or height and `write_image_data` data of any length but three
/// bytes per pixel; 8-bit RGB is a valid pair, and writing into a `Vec` never
/// fails, so nothing else is refused. `write_image_data` multiplies the row
/// length by the height unchecked, hence the bound.
#[verifier::external_body]
fn encode_rgb8(width: u32, height: u32, data: &Vec<u8>) -> (r: Result<Vec<u8>, png::EncodingError>)
    requires
        3 * width * height <= usize::MAX,
    ensures
        r is Ok <==> (width > 0 && height > 0 && data@.len() == 3 * width * height),
        r is Ok ==> r->Ok_0@ == png_rgb8(width as nat, height as nat, data@),
{
    let mut out: Vec<u8> = Vec::new();
    {
        let mut encoder = png::Encoder::new(&mut out, width, height);
        encoder.set_color(png::ColorType::RGB);
        encoder.set_depth(png::BitDepth::Eight);
        let mut writer = encoder.write_header()?;
        writer.write_image_data(data)?;
    }
    Ok(out)
}

} // verus!
