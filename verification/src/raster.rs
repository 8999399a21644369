//! RGBA rasters: the pixel grids that the capture engine compares and composes.

use vstd::prelude::*;
use vstd::slice::slice_subrange;

verus! {

/// Number of bytes that one pixel occupies: red, green, blue, alpha.
pub const BYTES_PER_PIXEL: usize = 4;

/// Mathematical model of a raster: its dimensions and its bytes in row-major
/// order, four bytes (red, green, blue, alpha) per pixel.
pub struct RasterView {
    pub width: nat,
    pub height: nat,
    pub pixels: Seq<u8>,
}

impl RasterView {
    /// The byte sequence holds exactly `width * height` pixels.
    pub open spec fn wf(self) -> bool {
        self.pixels.len() == self.width * self.height * 4
    }

    /// Number of bytes in one row.
    pub open spec fn row_bytes(self) -> int {
        self.width as int * 4
    }

    /// The bytes of rows `from..to`, top to bottom.
    pub open spec fn rows(self, from: int, to: int) -> Seq<u8> {
        self.pixels.subrange(from * self.row_bytes(), to * self.row_bytes())
    }

    /// Channel `c` (0 = red, 1 = green, 2 = blue, 3 = alpha) of the pixel in
    /// column `x` of row `y`.
    pub open spec fn channel(self, x: int, y: int, c: int) -> u8 {
        self.pixels[(y * self.width + x) * 4 + c]
    }

    /// The bytes of columns `x..x + width` of row `y`.
    pub open spec fn row_segment(self, x: int, y: int, width: int) -> Seq<u8> {
        self.pixels.subrange((y * self.width + x) * 4, (y * self.width + x + width) * 4)
    }

    /// The bytes of the window of the given width whose top-left corner is
    /// `(x, y)`, over its first `rows` rows.
    pub open spec fn window_bytes(self, x: int, y: int, width: int, rows: nat) -> Seq<u8>
        decreases rows,
    {
        if rows == 0 {
            Seq::empty()
        } else {
            self.window_bytes(x, y, width, (rows - 1) as nat) + self.row_segment(
                x,
                y + rows - 1,
                width,
            )
        }
    }

    /// The window of the given size whose top-left corner is `(x, y)`.
    pub open spec fn window(self, x: int, y: int, width: nat, height: nat) -> RasterView {
        RasterView { width, height, pixels: self.window_bytes(x, y, width as int, height) }
    }

    /// The cut-out of the given size whose top-left corner is `(x, y)`, after
    /// the corner and then the size have been reduced to what lies inside the
    /// raster.
    pub open spec fn cropped(self, x: int, y: int, width: int, height: int) -> RasterView {
        let cx = if x < self.width {
            x
        } else {
            self.width as int
        };
        let cy = if y < self.height {
            y
        } else {
            self.height as int
        };
        let cw = if width < self.width - cx {
            width
        } else {
            self.width - cx
        };
        let ch = if height < self.height - cy {
            height
        } else {
            self.height - cy
        };
        self.window(cx, cy, cw as nat, ch as nat)
    }

    /// The raster of the rows `upper_from..upper_to` of `self` above the rows
    /// `lower_from..lower_to` of `lower`.
    pub open spec fn stacked(
        self,
        upper_from: int,
        upper_to: int,
        lower: RasterView,
        lower_from: int,
        lower_to: int,
    ) -> RasterView {
        RasterView {
            width: self.width,
            height: ((upper_to - upper_from) + (lower_to - lower_from)) as nat,
            pixels: self.rows(upper_from, upper_to) + lower.rows(lower_from, lower_to),
        }
    }
}

/// Rows `from..to` of a well-formed raster lie inside its byte sequence, and
/// their length is the number of rows times the row length.
pub proof fn lemma_rows_len(v: RasterView, from: int, to: int)
    requires
        v.wf(),
        0 <= from <= to <= v.height,
    ensures
        0 <= from * v.row_bytes() <= to * v.row_bytes() <= v.pixels.len(),
        v.rows(from, to).len() == (to - from) * v.row_bytes(),
        v.rows(0, v.height as int) == v.pixels,
{
    let rb = v.row_bytes();
    assert(0 <= from * rb <= to * rb) by (nonlinear_arith)
        requires
            0 <= from <= to,
            0 <= rb,
    ;
    assert(to * rb <= v.height * rb) by (nonlinear_arith)
        requires
            to <= v.height,
            0 <= rb,
    ;
    assert(v.height * rb == v.width * v.height * 4) by (nonlinear_arith)
        requires
            rb == v.width * 4,
    ;
    assert((to - from) * rb == to * rb - from * rb) by (nonlinear_arith);
    assert(0 * rb == 0);
    assert(v.rows(0, v.height as int) =~= v.pixels);
}

/// The index of a channel of a pixel inside the frame lies inside the byte
/// sequence.
pub proof fn lemma_channel_index(v: RasterView, x: int, y: int, c: int)
    requires
        v.wf(),
        0 <= x < v.width,
        0 <= y < v.height,
        0 <= c < 4,
    ensures
        0 <= (y * v.width + x) * 4 + c < v.pixels.len(),
        0 <= y * v.width + x < v.width * v.height,
{
    let w = v.width as int;
    let h = v.height as int;
    assert(0 <= y * w) by (nonlinear_arith)
        requires
            0 <= y,
            0 <= w,
    ;
    assert(y * w + x < w * h) by (nonlinear_arith)
        requires
            0 <= x < w,
            0 <= y < h,
    ;
    assert(w * h * 4 == (w * h) * 4);
}

/// The bytes of a window inside the raster: their number, and where each row lies.
pub proof fn lemma_window_bytes(v: RasterView, x: int, y: int, width: int, rows: nat)
    requires
        v.wf(),
        0 <= x,
        0 <= width,
        x + width <= v.width,
        0 <= y,
        y + rows <= v.height,
    ensures
        v.window_bytes(x, y, width, rows).len() == rows * width * 4,
        rows > 0 ==> 0 <= ((y + rows - 1) * v.width + x) * 4 <= ((y + rows - 1) * v.width + x
            + width) * 4 <= v.pixels.len(),
    decreases rows,
{
    if rows > 0 {
        lemma_window_bytes(v, x, y, width, (rows - 1) as nat);
        let w = v.width as int;
        let h = v.height as int;
        let r = y + rows - 1;
        assert(0 <= r * w) by (nonlinear_arith)
            requires
                0 <= r,
                0 <= w,
        ;
        assert(r * w + w <= h * w) by (nonlinear_arith)
            requires
                0 <= r < h,
                0 <= w,
        ;
        assert(w * h * 4 == (h * w) * 4) by (nonlinear_arith);
        assert(rows * width * 4 == (rows - 1) * width * 4 + width * 4) by (nonlinear_arith);
    } else {
        assert(rows * width * 4 == 0) by (nonlinear_arith)
            requires
                rows == 0,
        ;
    }
}

/// Every pixel of a window is the pixel of the raster that lies as far from
/// the window's corner: channel `c` of the pixel in column `i` of row `j` of
/// the window is channel `c` of the pixel in column `x + i` of row `y + j`.
pub proof fn lemma_window_channel(
    v: RasterView,
    x: int,
    y: int,
    width: nat,
    height: nat,
    i: int,
    j: int,
    c: int,
)
    requires
        v.wf(),
        0 <= x,
        x + width <= v.width,
        0 <= y,
        y + height <= v.height,
        0 <= i < width,
        0 <= j < height,
        0 <= c < 4,
    ensures
        v.window(x, y, width, height).wf(),
        v.window(x, y, width, height).channel(i, j, c) == v.channel(x + i, y + j, c),
    decreases height,
{
    let w = width as int;
    lemma_window_bytes(v, x, y, w, height);
    assert(width * height * 4 == height * w * 4) by (nonlinear_arith)
        requires
            w == width,
    ;
    let before = v.window_bytes(x, y, w, (height - 1) as nat);
    let last = v.row_segment(x, y + height - 1, w);
    lemma_window_bytes(v, x, y, w, (height - 1) as nat);
    let index = (j * w + i) * 4 + c;
    assert(0 <= j * w) by (nonlinear_arith)
        requires
            0 <= j,
            0 <= w,
    ;
    if j < height - 1 {
        lemma_window_channel(v, x, y, width, (height - 1) as nat, i, j, c);
        assert(j * w + i < (height - 1) * w) by (nonlinear_arith)
            requires
                0 <= i < w,
                0 <= j < height - 1,
        ;
        assert(index < (height - 1) * w * 4);
        assert((before + last)[index] == before[index]);
    } else {
        assert(j * w * 4 == (height - 1) * w * 4) by (nonlinear_arith)
            requires
                j == height - 1,
        ;
        assert(index - before.len() == i * 4 + c) by (nonlinear_arith)
            requires
                index == (j * w + i) * 4 + c,
                before.len() == (height - 1) * w * 4,
                j == height - 1,
        ;
        assert((before + last)[index] == last[i * 4 + c]);
        assert(((y + j) * v.width + (x + i)) * 4 + c == ((y + height - 1) * v.width + x) * 4 + (i
            * 4 + c)) by (nonlinear_arith)
            requires
                j == height - 1,
        ;
    }
}

/// Every pixel of stacked rows is the pixel of the row it was taken from:
/// row `j` of the result is row `upper_from + j` of the upper raster as far
/// as its rows go, and after them the rows of the lower raster follow.
pub proof fn lemma_stacked_channel(
    upper: RasterView,
    upper_from: int,
    upper_to: int,
    lower: RasterView,
    lower_from: int,
    lower_to: int,
    i: int,
    j: int,
    c: int,
)
    requires
        upper.wf(),
        lower.wf(),
        upper.width == lower.width,
        0 <= upper_from <= upper_to <= upper.height,
        0 <= lower_from <= lower_to <= lower.height,
        0 <= i < upper.width,
        0 <= j < (upper_to - upper_from) + (lower_to - lower_from),
        0 <= c < 4,
    ensures
        upper.stacked(upper_from, upper_to, lower, lower_from, lower_to).channel(i, j, c) == if j
            < upper_to - upper_from {
            upper.channel(i, upper_from + j, c)
        } else {
            lower.channel(i, lower_from + (j - (upper_to - upper_from)), c)
        },
{
    let w = upper.width as int;
    let rows = upper_to - upper_from;
    let first = upper.rows(upper_from, upper_to);
    let second = lower.rows(lower_from, lower_to);
    lemma_rows_len(upper, upper_from, upper_to);
    lemma_rows_len(lower, lower_from, lower_to);
    let index = (j * w + i) * 4 + c;
    assert(0 <= j * w) by (nonlinear_arith)
        requires
            0 <= j,
            0 <= w,
    ;
    if j < rows {
        assert(j * w + i < rows * w) by (nonlinear_arith)
            requires
                0 <= i < w,
                0 <= j < rows,
        ;
        assert(rows * (w * 4) == rows * w * 4) by (nonlinear_arith);
        assert((first + second)[index] == first[index]);
        assert(upper_from * (w * 4) + index == ((upper_from + j) * w + i) * 4 + c)
            by (nonlinear_arith)
            requires
                index == (j * w + i) * 4 + c,
        ;
    } else {
        let k = j - rows;
        assert(index - first.len() == (k * w + i) * 4 + c) by (nonlinear_arith)
            requires
                index == (j * w + i) * 4 + c,
                first.len() == rows * (w * 4),
                k == j - rows,
        ;
        assert(0 <= k * w) by (nonlinear_arith)
            requires
                0 <= k,
                0 <= w,
        ;
        assert(k * w + i < (lower_to - lower_from) * w) by (nonlinear_arith)
            requires
                0 <= i < w,
                0 <= k < lower_to - lower_from,
        ;
        assert((lower_to - lower_from) * (w * 4) == (lower_to - lower_from) * w * 4)
            by (nonlinear_arith);
        assert((first + second)[index] == second[(k * w + i) * 4 + c]);
        assert(lower_from * (w * 4) + ((k * w + i) * 4 + c) == ((lower_from + k) * w + i) * 4 + c)
            by (nonlinear_arith);
    }
}

/// The length of a vector is a number that fits its index type.
pub proof fn lemma_len_fits<T>(v: &Vec<T>)
    ensures
        v@.len() <= usize::MAX,
{
    assert(v.len() == v@.len());
}

/// An RGBA raster with explicit width and height. Its bytes always hold
/// exactly `width * height` pixels.
pub struct Raster {
    width: u32,
    height: u32,
    data: Vec<u8>,
}

impl View for Raster {
    type V = RasterView;

    closed spec fn view(&self) -> RasterView {
        RasterView { width: self.width as nat, height: self.height as nat, pixels: self.data@ }
    }
}

impl Clone for Raster {
    fn clone(&self) -> (res: Self)
        ensures
            res@ == self@,
            res@.wf(),
    {
        proof {
            use_type_invariant(self);
        }
        let data = self.data.clone();
        assert(data@ =~= self.data@);
        Raster { width: self.width, height: self.height, data }
    }
}

impl Raster {
    #[verifier::type_invariant]
    spec fn inv(self) -> bool {
        self.data@.len() == self.width as int * self.height as int * 4
    }

    /// Builds a raster from its bytes. The bytes are accepted if and only if
    /// there are exactly four for each of the `width * height` pixels.
    pub fn from_raw(width: u32, height: u32, data: Vec<u8>) -> (r: Option<Raster>)
        ensures
            r is Some <==> data@.len() == width as int * height as int * 4,
            r matches Some(img) ==> img@ == (RasterView {
                width: width as nat,
                height: height as nat,
                pixels: data@,
            }),
    {
        assert((width as int) * (height as int) <= 0xffff_ffff * 0xffff_ffff) by (nonlinear_arith)
            requires
                0 <= width <= 0xffff_ffff,
                0 <= height <= 0xffff_ffff,
        ;
        let count: u64 = (width as u64) * (height as u64);
        let len: u64 = data.len() as u64;
        if len % 4 == 0 && len / 4 == count {
            Some(Raster { width, height, data })
        } else {
            None
        }
    }

    /// Width in pixels.
    pub fn width(&self) -> (w: u32)
        ensures
            w == self@.width,
    {
        self.width
    }

    /// Height in pixels.
    pub fn height(&self) -> (h: u32)
        ensures
            h == self@.height,
    {
        self.height
    }

    /// Width and height in pixels.
    pub fn dimensions(&self) -> (d: (u32, u32))
        ensures
            d.0 == self@.width,
            d.1 == self@.height,
            self@.wf(),
    {
        proof {
            use_type_invariant(self);
        }
        (self.width, self.height)
    }

    /// The bytes of the raster, row by row.
    pub fn as_raw(&self) -> (bytes: &Vec<u8>)
        ensures
            bytes@ == self@.pixels,
            self@.wf(),
    {
        proof {
            use_type_invariant(self);
        }
        &self.data
    }

    /// Gives up the raster for its bytes.
    pub fn into_raw(self) -> (bytes: Vec<u8>)
        ensures
            bytes@ == self@.pixels,
            self@.wf(),
    {
        proof {
            use_type_invariant(&self);
        }
        self.data
    }

    /// The four channels of the pixel in column `x` of row `y`.
    pub fn get_pixel(&self, x: u32, y: u32) -> (p: [u8; 4])
        requires
            x < self@.width,
            y < self@.height,
        ensures
            forall|c: int| 0 <= c < 4 ==> p[c] == self@.channel(x as int, y as int, c),
    {
        proof {
            use_type_invariant(self);
            lemma_channel_index(self@, x as int, y as int, 0);
            lemma_channel_index(self@, x as int, y as int, 3);
            assert(0 <= (y as int) * (self.width as int)) by (nonlinear_arith);
            lemma_len_fits(&self.data);
        }
        let base: usize = ((y as usize) * (self.width as usize) + (x as usize)) * 4;
        [self.data[base], self.data[base + 1], self.data[base + 2], self.data[base + 3]]
    }

    /// Puts rows `upper_from..upper_to` of `upper` above rows
    /// `lower_from..lower_to` of `lower` in a new raster of the same width.
    pub(crate) fn stack_rows(
        upper: &Raster,
        upper_from: u32,
        upper_to: u32,
        lower: &Raster,
        lower_from: u32,
        lower_to: u32,
    ) -> (r: Raster)
        requires
            upper@.width == lower@.width,
            upper_from <= upper_to <= upper@.height,
            lower_from <= lower_to <= lower@.height,
            (upper_to - upper_from) + (lower_to - lower_from) <= u32::MAX,
            ((upper_to - upper_from) + (lower_to - lower_from)) * upper@.width * 4 <= usize::MAX,
        ensures
            r@ == upper@.stacked(
                upper_from as int,
                upper_to as int,
                lower@,
                lower_from as int,
                lower_to as int,
            ),
            r@.wf(),
    {
        proof {
            use_type_invariant(upper);
            use_type_invariant(lower);
            lemma_rows_len(upper@, upper_from as int, upper_to as int);
            lemma_rows_len(lower@, lower_from as int, lower_to as int);
        }
        let up = upper.data.as_slice();
        let low = lower.data.as_slice();
        let width = upper.width;
        let ghost rb = upper@.row_bytes();
        let u0: usize = Self::row_offset(upper, upper_from);
        let u1: usize = Self::row_offset(upper, upper_to);
        let l0: usize = Self::row_offset(lower, lower_from);
        let l1: usize = Self::row_offset(lower, lower_to);
        let first = slice_subrange(up, u0, u1);
        let second = slice_subrange(low, l0, l1);
        let mut data: Vec<u8> = Vec::new();
        data.extend_from_slice(first);
        data.extend_from_slice(second);
        let height: u32 = (upper_to - upper_from) + (lower_to - lower_from);
        proof {
            assert(data@ =~= upper@.rows(upper_from as int, upper_to as int) + lower@.rows(
                lower_from as int,
                lower_to as int,
            ));
            let a = upper_to - upper_from;
            let b = lower_to - lower_from;
            assert((a + b) * rb == a * rb + b * rb) by (nonlinear_arith);
            assert((width as int) * (height as int) * 4 == (a + b) * rb) by (nonlinear_arith)
                requires
                    rb == width * 4,
                    height == a + b,
            ;
        }
        Raster { width, height, data }
    }

    /// Index of the first byte of row `y`, or of the end of the bytes for the
    /// row after the last.
    fn row_offset(img: &Raster, y: u32) -> (offset: usize)
        requires
            y <= img@.height,
        ensures
            offset == y * img@.row_bytes(),
            offset <= img@.pixels.len(),
    {
        proof {
            use_type_invariant(img);
            lemma_rows_len(img@, 0, y as int);
            assert(y * (img.width as int * 4) == (y * img.width as int) * 4) by (nonlinear_arith);
            assert(0 <= y * img.width as int) by (nonlinear_arith);
            lemma_len_fits(&img.data);
        }
        (y as usize) * (img.width as usize) * 4
    }

    /// Returns the cut-out of the given size whose top-left corner is
    /// `(x, y)`. A corner outside the raster is moved to its edge, and a size
    /// that reaches beyond it is reduced.
    pub fn crop_imm(&self, x: u32, y: u32, width: u32, height: u32) -> (r: Raster)
        ensures
            r@ == self@.cropped(x as int, y as int, width as int, height as int),
            r@.wf(),
    {
        proof {
            use_type_invariant(self);
            lemma_len_fits(&self.data);
        }
        let cx: u32 = if x < self.width {
            x
        } else {
            self.width
        };
        let cy: u32 = if y < self.height {
            y
        } else {
            self.height
        };
        let cw: u32 = if width < self.width - cx {
            width
        } else {
            self.width - cx
        };
        let ch: u32 = if height < self.height - cy {
            height
        } else {
            self.height - cy
        };
        let bytes = self.data.as_slice();
        let w: usize = self.width as usize;
        let mut data: Vec<u8> = Vec::new();
        let mut row: u32 = 0;
        while row < ch
            invariant
                self@.wf(),
                bytes@ == self@.pixels,
                bytes@.len() <= usize::MAX,
                w == self@.width,
                cx + cw <= self@.width,
                cy + ch <= self@.height,
                row <= ch,
                data@ == self@.window_bytes(cx as int, cy as int, cw as int, row as nat),
            decreases ch - row,
        {
            proof {
                lemma_window_bytes(self@, cx as int, cy as int, cw as int, (row + 1) as nat);
                assert(0 <= (cy + row) * w) by (nonlinear_arith);
            }
            let start: usize = ((cy as usize + row as usize) * w + cx as usize) * 4;
            let end: usize = start + (cw as usize) * 4;
            let segment = slice_subrange(bytes, start, end);
            let ghost before = data@;
            data.extend_from_slice(segment);
            assert(data@ =~= before + self@.row_segment(cx as int, cy + row, cw as int));
            row = row + 1;
        }
        proof {
            lemma_window_bytes(self@, cx as int, cy as int, cw as int, ch as nat);
            assert((cw as int) * (ch as int) * 4 == ch * cw * 4) by (nonlinear_arith);
        }
        Raster { width: cw, height: ch, data }
    }
}

} // verus!
