//! Delta detector: measures the vertical scroll offset between two frames by
//! comparing horizontal strips of their luminance.
//!
//! An offset is positive where the new frame shows the page further down,
//! so that its new content is at its bottom; the strips of the reference
//! frame are then found further up in the new frame.
//!
//! All quantities are integers. Luminance is kept in thousandths of a
//! channel step, so that the broadcast-television weights 0.299, 0.587 and
//! 0.114 are the integers 299, 587 and 114, and every threshold on an average
//! difference is compared after multiplying it by the number of pixels.

use crate::raster::{Raster, RasterView};
use vstd::prelude::*;

verus! {

/// Height of a matching strip, and the least frame height the detector works on.
pub const STRIP_HEIGHT: u32 = 40;

/// Largest offset that is ever searched.
pub const SEARCH_CEILING: u32 = 300;

/// Smallest offset that is told apart from noise.
pub const MIN_DELTA: u32 = 10;

/// Distance between two offsets of the coarse pass, and the reach of the fine
/// pass on either side of the coarse winner.
pub const COARSE_STEP: u32 = 8;

/// Largest luminance value: a white pixel, in thousandths.
pub const LUMA_MAX: u32 = 255_000;

/// Average difference, in thousandths, below which two strips count as the same.
pub const NEAR_IDENTICAL: u64 = 5_000;

/// Average difference, in thousandths, above which a best match is rejected.
pub const MATCH_CEILING: u64 = 30_000;

/// Average difference, in thousandths, above which the second strip rejects a match.
pub const VERIFY_CEILING: u64 = 40_000;

/// Luminance of a pixel in thousandths: 0.299 R + 0.587 G + 0.114 B.
pub open spec fn luminance(r: u8, g: u8, b: u8) -> int {
    299 * r + 587 * g + 114 * b
}

/// The luminance of every pixel of a raster, row by row.
pub open spec fn luma_plane(v: RasterView) -> Seq<u32> {
    Seq::new(
        v.width * v.height,
        |i: int| luminance(v.pixels[4 * i], v.pixels[4 * i + 1], v.pixels[4 * i + 2]) as u32,
    )
}

/// Every value of the plane is a luminance: none exceeds that of white.
pub open spec fn is_luma_plane(plane: Seq<u32>) -> bool {
    forall|i: int| 0 <= i < plane.len() ==> #[trigger] plane[i] <= LUMA_MAX
}

/// Absolute difference of the two samples at the given indices; a sample
/// outside either plane contributes nothing.
pub open spec fn sample_diff(prev: Seq<u32>, curr: Seq<u32>, pi: int, ci: int) -> int {
    if 0 <= pi < prev.len() && 0 <= ci < curr.len() {
        if prev[pi] >= curr[ci] {
            prev[pi] - curr[ci]
        } else {
            curr[ci] - prev[pi]
        }
    } else {
        0
    }
}

/// Number of columns that are sampled in a row of the given width: every
/// second one, starting with the first.
pub open spec fn sampled_columns(width: int) -> nat {
    if width <= 0 {
        0
    } else {
        ((width + 1) / 2) as nat
    }
}

/// Sum of the sample differences of the first `samples` sampled columns of
/// two rows that start at the given indices.
pub open spec fn row_diff(
    prev: Seq<u32>,
    curr: Seq<u32>,
    prev_start: int,
    curr_start: int,
    samples: nat,
) -> int
    decreases samples,
{
    if samples == 0 {
        0
    } else {
        row_diff(prev, curr, prev_start, curr_start, (samples - 1) as nat) + sample_diff(
            prev,
            curr,
            prev_start + 2 * (samples - 1),
            curr_start + 2 * (samples - 1),
        )
    }
}

/// Sum of absolute differences between the strip of `rows` rows that starts at
/// row `prev_y` of `prev` and the one that starts at row `curr_y` of `curr`,
/// both planes being `width` samples wide.
pub open spec fn strip_diff(
    prev: Seq<u32>,
    curr: Seq<u32>,
    width: int,
    prev_y: int,
    curr_y: int,
    rows: nat,
) -> int
    decreases rows,
{
    if rows == 0 {
        0
    } else {
        strip_diff(prev, curr, width, prev_y, curr_y, (rows - 1) as nat) + row_diff(
            prev,
            curr,
            (prev_y + rows - 1) * width,
            (curr_y + rows - 1) * width,
            sampled_columns(width),
        )
    }
}

/// A row sum lies between zero and the number of samples times the largest
/// luminance.
pub proof fn lemma_row_diff_bound(
    prev: Seq<u32>,
    curr: Seq<u32>,
    prev_start: int,
    curr_start: int,
    samples: nat,
)
    requires
        is_luma_plane(prev),
        is_luma_plane(curr),
    ensures
        0 <= row_diff(prev, curr, prev_start, curr_start, samples) <= samples * LUMA_MAX,
    decreases samples,
{
    if samples > 0 {
        lemma_row_diff_bound(prev, curr, prev_start, curr_start, (samples - 1) as nat);
        assert(samples * LUMA_MAX == (samples - 1) * LUMA_MAX + LUMA_MAX) by (nonlinear_arith);
    }
}

/// A strip sum lies between zero and the number of samples times the largest
/// luminance.
pub proof fn lemma_strip_diff_bound(
    prev: Seq<u32>,
    curr: Seq<u32>,
    width: int,
    prev_y: int,
    curr_y: int,
    rows: nat,
)
    requires
        is_luma_plane(prev),
        is_luma_plane(curr),
    ensures
        0 <= strip_diff(prev, curr, width, prev_y, curr_y, rows) <= rows * sampled_columns(width)
            * LUMA_MAX,
    decreases rows,
{
    if rows > 0 {
        lemma_strip_diff_bound(prev, curr, width, prev_y, curr_y, (rows - 1) as nat);
        lemma_row_diff_bound(
            prev,
            curr,
            (prev_y + rows - 1) * width,
            (curr_y + rows - 1) * width,
            sampled_columns(width),
        );
        let n = sampled_columns(width);
        assert(rows * n * LUMA_MAX == (rows - 1) * n * LUMA_MAX + n * LUMA_MAX)
            by (nonlinear_arith);
    }
}

/// A row whose samples all lie outside one of the planes sums to zero.
pub proof fn lemma_row_diff_outside(
    prev: Seq<u32>,
    curr: Seq<u32>,
    prev_start: int,
    curr_start: int,
    samples: nat,
)
    requires
        prev_start >= prev.len() || curr_start >= curr.len(),
    ensures
        row_diff(prev, curr, prev_start, curr_start, samples) == 0,
    decreases samples,
{
    if samples > 0 {
        lemma_row_diff_outside(prev, curr, prev_start, curr_start, (samples - 1) as nat);
    }
}

/// Converts a raster to its luminance plane.
pub fn to_grayscale(img: &Raster) -> (gray: Vec<u32>)
    ensures
        gray@ == luma_plane(img@),
        is_luma_plane(gray@),
{
    let bytes = img.as_raw();
    let count: usize = bytes.len() / 4;
    proof {
        assert(img@.width * img@.height * 4 == (img@.width * img@.height) * 4);
    }
    let mut gray: Vec<u32> = Vec::with_capacity(count);
    let mut i: usize = 0;
    while i < count
        invariant
            i <= count,
            count * 4 == bytes@.len(),
            bytes@.len() <= usize::MAX,
            bytes@ == img@.pixels,
            count == img@.width * img@.height,
            gray@.len() == i,
            forall|k: int|
                0 <= k < i ==> #[trigger] gray@[k] == luma_plane(img@)[k],
            is_luma_plane(gray@),
        decreases count - i,
    {
        let r: u32 = bytes[4 * i] as u32;
        let g: u32 = bytes[4 * i + 1] as u32;
        let b: u32 = bytes[4 * i + 2] as u32;
        let lum: u32 = 299 * r + 587 * g + 114 * b;
        gray.push(lum);
        i += 1;
    }
    assert(gray@ =~= luma_plane(img@));
    gray
}

/// Sum of the sample differences of one row of each plane, the rows starting
/// at the given indices.
fn row_sum(
    prev: &Vec<u32>,
    curr: &Vec<u32>,
    prev_start: usize,
    curr_start: usize,
    width: u32,
) -> (d: u64)
    requires
        is_luma_plane(prev@),
        is_luma_plane(curr@),
        prev_start <= prev@.len(),
        curr_start <= curr@.len(),
    ensures
        d == row_diff(prev@, curr@, prev_start as int, curr_start as int, sampled_columns(width as int)),
{
    let prev_room: usize = prev.len() - prev_start;
    let curr_room: usize = curr.len() - curr_start;
    let mut d: u64 = 0;
    let mut dx: u64 = 0;
    let ghost mut k: nat = 0;
    while dx < width as u64
        invariant
            is_luma_plane(prev@),
            is_luma_plane(curr@),
            prev_room == prev@.len() - prev_start,
            curr_room == curr@.len() - curr_start,
            prev@.len() <= usize::MAX,
            curr@.len() <= usize::MAX,
            dx == 2 * k,
            dx <= width + 1,
            d == row_diff(prev@, curr@, prev_start as int, curr_start as int, k),
            d <= k * LUMA_MAX,
        decreases width + 1 - dx,
    {
        proof {
            assert((k + 1) * LUMA_MAX == k * LUMA_MAX + LUMA_MAX) by (nonlinear_arith);
        }
        if dx < prev_room as u64 && dx < curr_room as u64 {
            let a: u32 = prev[prev_start + dx as usize];
            let b: u32 = curr[curr_start + dx as usize];
            let diff: u32 = if a >= b {
                a - b
            } else {
                b - a
            };
            d = d + diff as u64;
        }
        dx = dx + 2;
        proof {
            k = k + 1;
        }
    }
    d
}

/// Sum of absolute differences between two horizontal strips of `height`
/// rows, one starting at row `prev_y` of `prev`, the other at row `curr_y` of
/// `curr`. Every second column is sampled, and samples outside either plane
/// are left out.
pub fn compute_strip_diff(
    prev: &Vec<u32>,
    curr: &Vec<u32>,
    prev_y: u32,
    curr_y: u32,
    width: u32,
    height: u32,
) -> (diff: u64)
    requires
        is_luma_plane(prev@),
        is_luma_plane(curr@),
        height * sampled_columns(width as int) * LUMA_MAX <= u64::MAX,
    ensures
        diff == strip_diff(
            prev@,
            curr@,
            width as int,
            prev_y as int,
            curr_y as int,
            height as nat,
        ),
        diff <= height * sampled_columns(width as int) * LUMA_MAX,
{
    if width == 0 {
        proof {
            lemma_strip_diff_bound(
                prev@,
                curr@,
                width as int,
                prev_y as int,
                curr_y as int,
                height as nat,
            );
            assert(height * sampled_columns(0) * LUMA_MAX == 0) by (nonlinear_arith)
                requires
                    sampled_columns(0) == 0,
            ;
        }
        return 0;
    }
    let w: usize = width as usize;
    let prev_rows: usize = prev.len() / w;
    let curr_rows: usize = curr.len() / w;
    let ghost n = sampled_columns(width as int);
    let mut diff: u64 = 0;
    let mut dy: u32 = 0;
    while dy < height
        invariant
            is_luma_plane(prev@),
            is_luma_plane(curr@),
            w == width,
            width > 0,
            n == sampled_columns(width as int),
            prev_rows == (prev@.len() as int) / (w as int),
            curr_rows == (curr@.len() as int) / (w as int),
            prev@.len() <= usize::MAX,
            curr@.len() <= usize::MAX,
            height * n * LUMA_MAX <= u64::MAX,
            dy <= height,
            diff == strip_diff(prev@, curr@, width as int, prev_y as int, curr_y as int, dy as nat),
        decreases height - dy,
    {
        let py: u64 = prev_y as u64 + dy as u64;
        let cy: u64 = curr_y as u64 + dy as u64;
        proof {
            lemma_strip_diff_bound(
                prev@,
                curr@,
                width as int,
                prev_y as int,
                curr_y as int,
                (dy + 1) as nat,
            );
            assert((dy + 1) * n * LUMA_MAX <= height * n * LUMA_MAX) by (nonlinear_arith)
                requires
                    dy + 1 <= height,
                    0 <= n,
            ;
            lemma_strip_diff_bound(
                prev@,
                curr@,
                width as int,
                prev_y as int,
                curr_y as int,
                dy as nat,
            );
        }
        let row: u64 = if py <= prev_rows as u64 && cy <= curr_rows as u64 {
            proof {
                lemma_row_start_inside(prev@.len() as int, w as int, py as int);
                lemma_row_start_inside(curr@.len() as int, w as int, cy as int);
            }
            row_sum(prev, curr, py as usize * w, cy as usize * w, width)
        } else {
            proof {
                if py > prev_rows {
                    lemma_row_start_outside(prev@.len() as int, w as int, py as int);
                } else {
                    lemma_row_start_outside(curr@.len() as int, w as int, cy as int);
                }
                lemma_row_diff_outside(prev@, curr@, py * w, cy * w, n);
            }
            0
        };
        assert(row == row_diff(prev@, curr@, (prev_y + dy) * width, (curr_y + dy) * width, n));
        diff = diff + row;
        dy = dy + 1;
    }
    proof {
        lemma_strip_diff_bound(
            prev@,
            curr@,
            width as int,
            prev_y as int,
            curr_y as int,
            height as nat,
        );
    }
    diff
}

/// A row at or before the last started row of a plane begins inside the plane
/// or at its end.
proof fn lemma_row_start_inside(len: int, width: int, row: int)
    requires
        0 <= len,
        0 < width,
        0 <= row <= len / width,
    ensures
        0 <= row * width <= len,
{
    vstd::arithmetic::div_mod::lemma_fundamental_div_mod(len, width);
    assert(0 <= row * width <= (len / width) * width) by (nonlinear_arith)
        requires
            0 <= row <= len / width,
            0 < width,
    ;
    assert(width * (len / width) == (len / width) * width) by (nonlinear_arith);
    vstd::arithmetic::div_mod::lemma_mod_bound(len, width);
}

/// A row after the last started row of a plane begins at or after the plane's
/// end.
proof fn lemma_row_start_outside(len: int, width: int, row: int)
    requires
        0 <= len,
        0 < width,
        row > len / width,
    ensures
        row * width >= len,
{
    vstd::arithmetic::div_mod::lemma_fundamental_div_mod(len, width);
    vstd::arithmetic::div_mod::lemma_mod_bound(len, width);
    assert(row * width >= (len / width + 1) * width) by (nonlinear_arith)
        requires
            row >= len / width + 1,
            0 < width,
    ;
    assert((len / width + 1) * width == width * (len / width) + width) by (nonlinear_arith);
}

/// Direction of a vertical offset. An offset is positive when the new frame
/// shows the page further down: what the reference frame shows in a row, the
/// new frame shows so many rows further up, and the new content is at its
/// bottom. It is negative when the new frame shows the page further up.
#[derive(Clone, Copy, PartialEq, Eq, Debug)]
pub enum Sign {
    Positive,
    Negative,
}

/// A candidate offset together with its strip difference.
pub struct Candidate {
    pub shift: int,
    pub score: int,
}

/// First row of the reference strip: the strip is centred vertically.
pub open spec fn template_y(h: int) -> int {
    h / 2 - STRIP_HEIGHT / 2
}

/// Largest offset that is searched: half the frame height, at most the
/// ceiling, and at most the caller's bound if there is one.
pub open spec fn search_range(h: int, max_magnitude: Option<u32>) -> int {
    let natural = if h / 2 < SEARCH_CEILING {
        h / 2
    } else {
        SEARCH_CEILING as int
    };
    match max_magnitude {
        Some(m) => if m < natural {
            m as int
        } else {
            natural
        },
        None => natural,
    }
}

/// Whether the strip that lies `shift` rows above the place of the reference
/// strip is inside a frame of the given height, with a row to spare below it.
pub open spec fn in_frame(h: int, shift: int) -> bool {
    0 <= template_y(h) - shift < h - STRIP_HEIGHT
}

/// The difference at the offset `shift`: that between the reference strip
/// and the strip of the new frame that lies `shift` rows further up. It is
/// what the page has moved by if the new frame shows it `shift` rows further
/// down.
pub open spec fn shift_score(prev: Seq<u32>, curr: Seq<u32>, w: int, h: int, shift: int) -> int {
    strip_diff(prev, curr, w, template_y(h), template_y(h) - shift, STRIP_HEIGHT as nat)
}

/// The better of the best candidate so far and the offset `shift`. The offset
/// only counts if the shifted strip lies inside the frame, and it wins only
/// with a strictly smaller difference.
pub open spec fn consider(
    best: Option<Candidate>,
    prev: Seq<u32>,
    curr: Seq<u32>,
    w: int,
    h: int,
    shift: int,
) -> Option<Candidate> {
    if in_frame(h, shift) {
        let score = shift_score(prev, curr, w, h, shift);
        match best {
            Some(b) => if score < b.score {
                Some(Candidate { shift, score })
            } else {
                best
            },
            None => Some(Candidate { shift, score }),
        }
    } else {
        best
    }
}

/// Number of magnitudes that the coarse pass visits: 10, 18, 26, ... up to the range.
pub open spec fn coarse_steps(range: int) -> nat {
    if range < MIN_DELTA {
        0
    } else {
        ((range - MIN_DELTA) / (COARSE_STEP as int) + 1) as nat
    }
}

/// Winner of the coarse pass after its first `steps` magnitudes. At each
/// magnitude the negative offset, whose strip lies further down in the new
/// frame, is considered before the positive one; a direction hint leaves the
/// other direction out.
pub open spec fn coarse_search(
    prev: Seq<u32>,
    curr: Seq<u32>,
    w: int,
    h: int,
    direction: Option<Sign>,
    steps: nat,
) -> Option<Candidate>
    decreases steps,
{
    if steps == 0 {
        None
    } else {
        let m = MIN_DELTA + COARSE_STEP * (steps - 1);
        let before = coarse_search(prev, curr, w, h, direction, (steps - 1) as nat);
        let lower = if direction != Some(Sign::Positive) {
            consider(before, prev, curr, w, h, -m)
        } else {
            before
        };
        if direction != Some(Sign::Negative) {
            consider(lower, prev, curr, w, h, m)
        } else {
            lower
        }
    }
}

/// Winner of the fine pass after its first `count` magnitudes `lo`, `lo + 1`,
/// ..., all taken in the direction `sign` and starting from `start`.
pub open spec fn refine_search(
    start: Option<Candidate>,
    prev: Seq<u32>,
    curr: Seq<u32>,
    w: int,
    h: int,
    sign: int,
    lo: int,
    count: nat,
) -> Option<Candidate>
    decreases count,
{
    if count == 0 {
        start
    } else {
        consider(
            refine_search(start, prev, curr, w, h, sign, lo, (count - 1) as nat),
            prev,
            curr,
            w,
            h,
            sign * (lo + count - 1),
        )
    }
}

/// Best candidate of the whole search: the coarse winner, refined over every
/// magnitude within the coarse step of it, in its own direction.
pub open spec fn best_candidate(
    prev: Seq<u32>,
    curr: Seq<u32>,
    w: int,
    h: int,
    direction: Option<Sign>,
    range: int,
) -> Option<Candidate> {
    match coarse_search(prev, curr, w, h, direction, coarse_steps(range)) {
        None => None,
        Some(c) => {
            let magnitude = if c.shift >= 0 {
                c.shift
            } else {
                -c.shift
            };
            let lo = if magnitude - COARSE_STEP > MIN_DELTA {
                magnitude - COARSE_STEP
            } else {
                MIN_DELTA as int
            };
            let hi = if magnitude + COARSE_STEP < range {
                magnitude + COARSE_STEP
            } else {
                range
            };
            let sign = if c.shift >= 0 {
                1int
            } else {
                -1int
            };
            let count = if hi >= lo {
                (hi - lo + 1) as nat
            } else {
                0nat
            };
            refine_search(Some(c), prev, curr, w, h, sign, lo, count)
        },
    }
}

/// First row of the second strip, which confirms a match, in the reference
/// frame: near the top for a negative offset, whose strips lie further down
/// in the new frame, near the bottom otherwise, and clear of the reference
/// strip. Rows of it that the frame does not have are left out of the
/// comparison.
pub open spec fn verify_row(h: int, shift: int) -> int {
    let ty = template_y(h);
    if shift < 0 {
        let above = if ty - STRIP_HEIGHT > 0 {
            ty - STRIP_HEIGHT
        } else {
            0
        };
        if h / 4 < above {
            h / 4
        } else {
            above
        }
    } else {
        if h * 3 / 4 > ty + STRIP_HEIGHT {
            h * 3 / 4
        } else {
            ty + STRIP_HEIGHT
        }
    }
}

/// Row of the new frame against which the second strip is compared: the
/// strip's own row moved up by the offset, kept inside the frame.
pub open spec fn verify_target(h: int, shift: int) -> int {
    let y = verify_row(h, shift) - shift;
    if y < 0 {
        0
    } else if y > h - STRIP_HEIGHT {
        h - STRIP_HEIGHT
    } else {
        y
    }
}

/// The offset between two luminance planes of the same width and height, or
/// zero where no offset is trusted. Planes lower than a strip, and planes
/// without columns, give zero.
///
/// With `area` the number of pixels of a strip and every difference a sum in
/// thousandths: the frames count as unmoved when the unshifted difference is
/// below `NEAR_IDENTICAL * area`; the best candidate is rejected unless the
/// unshifted difference is at least twice its own (and at least twice `area`,
/// an average of one thousandth), and unless its own is at most
/// `MATCH_CEILING * area`; and it is rejected when the second strip differs by
/// more than `VERIFY_CEILING * area`.
pub open spec fn match_offset(
    prev: Seq<u32>,
    curr: Seq<u32>,
    w: int,
    h: int,
    direction: Option<Sign>,
    max_magnitude: Option<u32>,
) -> int {
    let area = w * STRIP_HEIGHT;
    let ty = template_y(h);
    let baseline = strip_diff(prev, curr, w, ty, ty, STRIP_HEIGHT as nat);
    if h < STRIP_HEIGHT || w <= 0 || baseline < NEAR_IDENTICAL * area {
        0
    } else {
        match best_candidate(prev, curr, w, h, direction, search_range(h, max_magnitude)) {
            None => 0,
            Some(best) => {
                let floor = if best.score > area {
                    best.score
                } else {
                    area
                };
                if baseline < 2 * floor || best.score > MATCH_CEILING * area {
                    0
                } else if strip_diff(
                    prev,
                    curr,
                    w,
                    verify_row(h, best.shift),
                    verify_target(h, best.shift),
                    STRIP_HEIGHT as nat,
                ) > VERIFY_CEILING * area {
                    0
                } else {
                    best.shift
                }
            },
        }
    }
}

/// The offset that the detector reports for two frames: zero unless they have
/// the same dimensions and at least the height of a strip, else the offset
/// between their luminance planes.
pub open spec fn detect_spec(
    prev: RasterView,
    curr: RasterView,
    direction: Option<Sign>,
    max_magnitude: Option<u32>,
) -> int {
    if prev.width != curr.width || prev.height != curr.height || prev.height < STRIP_HEIGHT {
        0
    } else {
        match_offset(
            luma_plane(prev),
            luma_plane(curr),
            prev.width as int,
            prev.height as int,
            direction,
            max_magnitude,
        )
    }
}

/// The candidate that an executable search state stands for.
pub open spec fn candidate_of(state: Option<(i32, u64)>) -> Option<Candidate> {
    match state {
        Some((shift, score)) => Some(Candidate { shift: shift as int, score: score as int }),
        None => None,
    }
}

/// A strip of the detector never sums to more than 64 bits hold.
proof fn lemma_strip_fits(width: u32)
    ensures
        STRIP_HEIGHT * sampled_columns(width as int) * LUMA_MAX <= 0x7fff_ffff_ffff_ffff,
        STRIP_HEIGHT * sampled_columns(width as int) * LUMA_MAX <= u64::MAX,
{
    let n = sampled_columns(width as int);
    assert(n <= 0x8000_0000);
    assert(40 * n * 255_000 <= 40 * 0x8000_0000 * 255_000) by (nonlinear_arith)
        requires
            0 <= n <= 0x8000_0000,
    ;
}

/// Scores the offset `shift` and keeps it if it beats the best so far.
fn consider_shift(
    best: Option<(i32, u64)>,
    prev: &Vec<u32>,
    curr: &Vec<u32>,
    width: u32,
    height: u32,
    shift: i32,
) -> (r: Option<(i32, u64)>)
    requires
        is_luma_plane(prev@),
        is_luma_plane(curr@),
        height >= STRIP_HEIGHT,
    ensures
        candidate_of(r) == consider(
            candidate_of(best),
            prev@,
            curr@,
            width as int,
            height as int,
            shift as int,
        ),
        r == best || (r matches Some(c) && c.0 == shift),
        r matches Some(c) ==> c.1 <= STRIP_HEIGHT * sampled_columns(width as int) * LUMA_MAX
            || r == best,
        best is Some ==> r is Some,
{
    let ty: u32 = height / 2 - STRIP_HEIGHT / 2;
    let y: i64 = ty as i64 - shift as i64;
    if 0 <= y && y < height as i64 - STRIP_HEIGHT as i64 {
        proof {
            lemma_strip_fits(width);
        }
        let score = compute_strip_diff(prev, curr, ty, y as u32, width, STRIP_HEIGHT);
        match best {
            Some(b) => if score < b.1 {
                Some((shift, score))
            } else {
                best
            },
            None => Some((shift, score)),
        }
    } else {
        best
    }
}

/// A search state holds an offset of trusted size and a difference that a
/// strip of the given width can have.
pub open spec fn state_in_range(state: Option<(i32, u64)>, width: int, range: int) -> bool {
    state matches Some(c) ==> (MIN_DELTA <= c.0 <= range || -range <= c.0 <= -(MIN_DELTA as int))
        && c.1 <= STRIP_HEIGHT * sampled_columns(width) * LUMA_MAX
}

/// Coarse pass: every eighth offset from 10 up to the range, the negative
/// before the positive.
fn coarse_pass(
    prev: &Vec<u32>,
    curr: &Vec<u32>,
    width: u32,
    height: u32,
    expected_direction: Option<Sign>,
    range: u32,
) -> (best: Option<(i32, u64)>)
    requires
        is_luma_plane(prev@),
        is_luma_plane(curr@),
        height >= STRIP_HEIGHT,
        range <= SEARCH_CEILING,
    ensures
        candidate_of(best) == coarse_search(
            prev@,
            curr@,
            width as int,
            height as int,
            expected_direction,
            coarse_steps(range as int),
        ),
        state_in_range(best, width as int, range as int),
{
    let ghost w = width as int;
    let ghost h = height as int;
    let positive: bool = match expected_direction {
        Some(Sign::Negative) => false,
        _ => true,
    };
    let negative: bool = match expected_direction {
        Some(Sign::Positive) => false,
        _ => true,
    };
    let mut best: Option<(i32, u64)> = None;
    let mut offset: u32 = MIN_DELTA;
    let ghost mut steps: nat = 0;
    while offset <= range
        invariant
            is_luma_plane(prev@),
            is_luma_plane(curr@),
            height >= STRIP_HEIGHT,
            w == width,
            h == height,
            range <= SEARCH_CEILING,
            positive == (expected_direction != Some(Sign::Negative)),
            negative == (expected_direction != Some(Sign::Positive)),
            offset == MIN_DELTA + COARSE_STEP * steps,
            steps == 0 || MIN_DELTA + COARSE_STEP * (steps - 1) <= range,
            candidate_of(best) == coarse_search(prev@, curr@, w, h, expected_direction, steps),
            state_in_range(best, w, range as int),
        decreases range + COARSE_STEP - offset,
    {
        if negative {
            best = consider_shift(best, prev, curr, width, height, -(offset as i32));
        }
        if positive {
            best = consider_shift(best, prev, curr, width, height, offset as i32);
        }
        offset = offset + COARSE_STEP;
        proof {
            steps = steps + 1;
        }
    }
    assert(steps == coarse_steps(range as int));
    best
}

/// Fine pass: every offset within the coarse step of the coarse winner, in
/// the winner's direction.
fn refine_pass(
    coarse: (i32, u64),
    prev: &Vec<u32>,
    curr: &Vec<u32>,
    width: u32,
    height: u32,
    lo: u32,
    hi: u32,
    sign: i32,
) -> (best: (i32, u64))
    requires
        is_luma_plane(prev@),
        is_luma_plane(curr@),
        height >= STRIP_HEIGHT,
        MIN_DELTA <= lo <= hi <= SEARCH_CEILING,
        sign == 1 || sign == -1,
        state_in_range(Some(coarse), width as int, hi as int),
    ensures
        candidate_of(Some(best)) == refine_search(
            candidate_of(Some(coarse)),
            prev@,
            curr@,
            width as int,
            height as int,
            sign as int,
            lo as int,
            (hi - lo + 1) as nat,
        ),
        state_in_range(Some(best), width as int, hi as int),
{
    let ghost w = width as int;
    let ghost h = height as int;
    let ghost start = candidate_of(Some(coarse));
    let mut best: Option<(i32, u64)> = Some(coarse);
    let mut m: u32 = lo;
    let ghost mut count: nat = 0;
    while m <= hi
        invariant
            is_luma_plane(prev@),
            is_luma_plane(curr@),
            height >= STRIP_HEIGHT,
            w == width,
            h == height,
            MIN_DELTA <= lo <= hi <= SEARCH_CEILING,
            sign == 1 || sign == -1,
            m == lo + count,
            m <= hi + 1,
            best is Some,
            candidate_of(best) == refine_search(
                start,
                prev@,
                curr@,
                w,
                h,
                sign as int,
                lo as int,
                count,
            ),
            state_in_range(best, w, hi as int),
        decreases hi + 1 - m,
    {
        let shift: i32 = if sign == 1 {
            m as i32
        } else {
            -(m as i32)
        };
        assert(shift == (sign as int) * (lo + (count + 1) - 1)) by (nonlinear_arith)
            requires
                shift == sign * m,
                m == lo + count,
        ;
        best = consider_shift(best, prev, curr, width, height, shift);
        m = m + 1;
        proof {
            count = count + 1;
        }
    }
    match best {
        Some(b) => b,
        None => coarse,
    }
}

/// The whole search: coarse pass, then fine pass round its winner.
fn search_best(
    prev: &Vec<u32>,
    curr: &Vec<u32>,
    width: u32,
    height: u32,
    expected_direction: Option<Sign>,
    range: u32,
) -> (best: Option<(i32, u64)>)
    requires
        is_luma_plane(prev@),
        is_luma_plane(curr@),
        height >= STRIP_HEIGHT,
        range <= SEARCH_CEILING,
    ensures
        candidate_of(best) == best_candidate(
            prev@,
            curr@,
            width as int,
            height as int,
            expected_direction,
            range as int,
        ),
        state_in_range(best, width as int, range as int),
{
    match coarse_pass(prev, curr, width, height, expected_direction, range) {
        None => None,
        Some(coarse) => {
            let magnitude: u32 = if coarse.0 >= 0 {
                coarse.0 as u32
            } else {
                (-coarse.0) as u32
            };
            let lo: u32 = if magnitude - COARSE_STEP > MIN_DELTA {
                magnitude - COARSE_STEP
            } else {
                MIN_DELTA
            };
            let hi: u32 = if magnitude + COARSE_STEP < range {
                magnitude + COARSE_STEP
            } else {
                range
            };
            let sign: i32 = if coarse.0 >= 0 {
                1
            } else {
                -1
            };
            Some(refine_pass(coarse, prev, curr, width, height, lo, hi, sign))
        },
    }
}

/// First row of the second strip for a trusted offset.
fn verify_row_of(height: u32, shift: i32) -> (y: u32)
    requires
        height >= STRIP_HEIGHT,
    ensures
        y == verify_row(height as int, shift as int),
{
    let ty: u32 = height / 2 - STRIP_HEIGHT / 2;
    if shift < 0 {
        let above: u32 = if ty > STRIP_HEIGHT {
            ty - STRIP_HEIGHT
        } else {
            0
        };
        if height / 4 < above {
            height / 4
        } else {
            above
        }
    } else {
        let low: u32 = (height as u64 * 3 / 4) as u32;
        if low > ty + STRIP_HEIGHT {
            low
        } else {
            ty + STRIP_HEIGHT
        }
    }
}

/// Row of the new frame that the second strip is compared with.
fn verify_target_of(height: u32, shift: i32) -> (y: u32)
    requires
        height >= STRIP_HEIGHT,
    ensures
        y == verify_target(height as int, shift as int),
{
    let moved: i64 = verify_row_of(height, shift) as i64 - shift as i64;
    if moved < 0 {
        0
    } else if moved > height as i64 - STRIP_HEIGHT as i64 {
        height - STRIP_HEIGHT
    } else {
        moved as u32
    }
}

/// The offset between two luminance planes of the same width and height, or
/// zero where no offset is trusted.
pub fn match_planes(
    prev: &Vec<u32>,
    curr: &Vec<u32>,
    width: u32,
    height: u32,
    expected_direction: Option<Sign>,
    max_magnitude: Option<u32>,
) -> (delta: i32)
    requires
        is_luma_plane(prev@),
        is_luma_plane(curr@),
    ensures
        delta == match_offset(
            prev@,
            curr@,
            width as int,
            height as int,
            expected_direction,
            max_magnitude,
        ),
        delta == 0 || MIN_DELTA <= delta <= SEARCH_CEILING || -(SEARCH_CEILING as int) <= delta
            <= -(MIN_DELTA as int),
        -(height / 2) <= delta <= height / 2,
{
    if height < STRIP_HEIGHT || width == 0 {
        return 0;
    }
    assert(width * STRIP_HEIGHT <= 0xffff_ffff * 40) by (nonlinear_arith)
        requires
            STRIP_HEIGHT == 40,
            width <= 0xffff_ffff,
    ;
    let area: u64 = width as u64 * STRIP_HEIGHT as u64;
    let ty: u32 = height / 2 - STRIP_HEIGHT / 2;
    proof {
        lemma_strip_fits(width);
        assert(area == 40 * width) by (nonlinear_arith)
            requires
                area == width * STRIP_HEIGHT,
                STRIP_HEIGHT == 40,
        ;
        assert(NEAR_IDENTICAL * area == 5_000 * area && MATCH_CEILING * area == 30_000 * area
            && VERIFY_CEILING * area == 40_000 * area) by (nonlinear_arith)
            requires
                NEAR_IDENTICAL == 5_000 && MATCH_CEILING == 30_000 && VERIFY_CEILING == 40_000,
        ;
    }
    let baseline = compute_strip_diff(prev, curr, ty, ty, width, STRIP_HEIGHT);
    if baseline < NEAR_IDENTICAL * area {
        return 0;
    }
    let natural: u32 = if height / 2 < SEARCH_CEILING {
        height / 2
    } else {
        SEARCH_CEILING
    };
    let range: u32 = match max_magnitude {
        Some(m) => if m < natural {
            m
        } else {
            natural
        },
        None => natural,
    };
    match search_best(prev, curr, width, height, expected_direction, range) {
        None => 0,
        Some((shift, score)) => {
            let floor: u64 = if score > area {
                score
            } else {
                area
            };
            if baseline < 2 * floor || score > MATCH_CEILING * area {
                0
            } else {
                let verify = compute_strip_diff(
                    prev,
                    curr,
                    verify_row_of(height, shift),
                    verify_target_of(height, shift),
                    width,
                    STRIP_HEIGHT,
                );
                if verify > VERIFY_CEILING * area {
                    0
                } else {
                    shift
                }
            }
        },
    }
}

/// Detects the vertical scroll offset between a reference frame and a newly
/// captured one. Zero means that no scroll was detected; any other result is
/// a trusted offset in pixels, between 10 and 300 in either direction.
///
/// `expected_direction` narrows the search to one direction and
/// `max_magnitude` to smaller offsets; neither replaces the comparison of
/// the strips.
pub fn detect_scroll_delta_fft(
    prev: &Raster,
    curr: &Raster,
    expected_direction: Option<Sign>,
    max_magnitude: Option<u32>,
) -> (delta: i32)
    ensures
        delta == detect_spec(prev@, curr@, expected_direction, max_magnitude),
        delta == 0 || MIN_DELTA <= delta <= SEARCH_CEILING || -(SEARCH_CEILING as int) <= delta
            <= -(MIN_DELTA as int),
        delta != 0 ==> prev@.width == curr@.width && prev@.height == curr@.height
            && prev@.height >= STRIP_HEIGHT,
        -(prev@.height / 2) <= delta <= prev@.height / 2,
{
    let (w, h) = prev.dimensions();
    let (w2, h2) = curr.dimensions();
    if w != w2 || h != h2 || h < STRIP_HEIGHT {
        return 0;
    }
    let prev_gray = to_grayscale(prev);
    let curr_gray = to_grayscale(curr);
    match_planes(&prev_gray, &curr_gray, w, h, expected_direction, max_magnitude)
}

/// A row compared with itself sums to zero.
pub proof fn lemma_row_diff_same(plane: Seq<u32>, start: int, samples: nat)
    ensures
        row_diff(plane, plane, start, start, samples) == 0,
    decreases samples,
{
    if samples > 0 {
        lemma_row_diff_same(plane, start, (samples - 1) as nat);
    }
}

/// A strip compared with the same strip of the same plane sums to zero.
pub proof fn lemma_strip_diff_same(plane: Seq<u32>, width: int, y: int, rows: nat)
    ensures
        strip_diff(plane, plane, width, y, y, rows) == 0,
    decreases rows,
{
    if rows > 0 {
        lemma_strip_diff_same(plane, width, y, (rows - 1) as nat);
        lemma_row_diff_same(plane, (y + rows - 1) * width, sampled_columns(width));
    }
}

/// No-op detection: for two identical frames the detector reports zero,
/// whatever the frames and the hints.
pub proof fn lemma_identical_frames_detect_zero(
    prev: RasterView,
    curr: RasterView,
    direction: Option<Sign>,
    max_magnitude: Option<u32>,
)
    requires
        prev == curr,
    ensures
        detect_spec(prev, curr, direction, max_magnitude) == 0,
{
    let plane = luma_plane(prev);
    let w = prev.width as int;
    let h = prev.height as int;
    lemma_strip_diff_same(plane, w, template_y(h), STRIP_HEIGHT as nat);
    if w > 0 {
        assert(NEAR_IDENTICAL * (w * STRIP_HEIGHT) > 0) by (nonlinear_arith)
            requires
                w > 0,
                NEAR_IDENTICAL == 5_000,
                STRIP_HEIGHT == 40,
        ;
    }
}

/// A candidate that wins against `best` is `best` itself or the offset
/// that was considered.
pub proof fn lemma_consider_picks(
    best: Option<Candidate>,
    prev: Seq<u32>,
    curr: Seq<u32>,
    w: int,
    h: int,
    shift: int,
)
    ensures
        consider(best, prev, curr, w, h, shift) == best || (consider(
            best,
            prev,
            curr,
            w,
            h,
            shift,
        ) matches Some(c) && c.shift == shift),
        best is Some ==> consider(best, prev, curr, w, h, shift) is Some,
{
}

/// The offset of a candidate is at least the smallest and at most the
/// largest that is searched, in either direction.
pub open spec fn shift_in_range(candidate: Option<Candidate>, range: int) -> bool {
    candidate matches Some(c) ==> (MIN_DELTA <= c.shift <= range || -range <= c.shift <= -(
    MIN_DELTA as int))
}

/// The winner of the coarse pass lies in the searched range.
pub proof fn lemma_coarse_in_range(
    prev: Seq<u32>,
    curr: Seq<u32>,
    w: int,
    h: int,
    direction: Option<Sign>,
    range: int,
    steps: nat,
)
    requires
        steps <= coarse_steps(range),
    ensures
        shift_in_range(coarse_search(prev, curr, w, h, direction, steps), range),
    decreases steps,
{
    if steps > 0 {
        lemma_coarse_in_range(prev, curr, w, h, direction, range, (steps - 1) as nat);
        let m = MIN_DELTA + COARSE_STEP * (steps - 1);
        let before = coarse_search(prev, curr, w, h, direction, (steps - 1) as nat);
        assert(MIN_DELTA <= m <= range);
        lemma_consider_picks(before, prev, curr, w, h, -m);
        let lower = if direction != Some(Sign::Positive) {
            consider(before, prev, curr, w, h, -m)
        } else {
            before
        };
        lemma_consider_picks(lower, prev, curr, w, h, m);
    }
}

/// The winner of the fine pass lies in the searched range.
pub proof fn lemma_refine_in_range(
    start: Option<Candidate>,
    prev: Seq<u32>,
    curr: Seq<u32>,
    w: int,
    h: int,
    sign: int,
    lo: int,
    count: nat,
    range: int,
)
    requires
        shift_in_range(start, range),
        sign == 1 || sign == -1,
        MIN_DELTA <= lo,
        lo + count - 1 <= range,
    ensures
        shift_in_range(refine_search(start, prev, curr, w, h, sign, lo, count), range),
        start is Some ==> refine_search(start, prev, curr, w, h, sign, lo, count) is Some,
    decreases count,
{
    if count > 0 {
        lemma_refine_in_range(start, prev, curr, w, h, sign, lo, (count - 1) as nat, range);
        let before = refine_search(start, prev, curr, w, h, sign, lo, (count - 1) as nat);
        let shift = sign * (lo + count - 1);
        assert(shift == lo + count - 1 || shift == -(lo + count - 1)) by (nonlinear_arith)
            requires
                sign == 1 || sign == -1,
                shift == sign * (lo + count - 1),
        ;
        lemma_consider_picks(before, prev, curr, w, h, shift);
    }
}

/// Trusted offsets: what the detector reports is zero, or an offset of at
/// least ten and at most three hundred pixels, no larger than half the
/// frame height or the caller's bound, between frames of the same size that
/// are at least as high as a strip.
pub proof fn lemma_detect_range(
    prev: RasterView,
    curr: RasterView,
    direction: Option<Sign>,
    max_magnitude: Option<u32>,
)
    ensures
        ({
            let delta = detect_spec(prev, curr, direction, max_magnitude);
            let size = if delta < 0 {
                -delta
            } else {
                delta
            };
            delta != 0 ==> {
                &&& prev.width == curr.width
                &&& prev.height == curr.height
                &&& prev.height >= STRIP_HEIGHT
                &&& MIN_DELTA <= size <= SEARCH_CEILING
                &&& size <= prev.height / 2
                &&& max_magnitude matches Some(m) ==> size <= m
            }
        }),
{
    let delta = detect_spec(prev, curr, direction, max_magnitude);
    if delta != 0 {
        let p = luma_plane(prev);
        let c = luma_plane(curr);
        let w = prev.width as int;
        let h = prev.height as int;
        let range = search_range(h, max_magnitude);
        lemma_coarse_in_range(p, c, w, h, direction, range, coarse_steps(range));
        let coarse = coarse_search(p, c, w, h, direction, coarse_steps(range));
        if coarse is Some {
            let first = coarse->0;
            let magnitude = if first.shift >= 0 {
                first.shift
            } else {
                -first.shift
            };
            let lo = if magnitude - COARSE_STEP > MIN_DELTA {
                magnitude - COARSE_STEP
            } else {
                MIN_DELTA as int
            };
            let hi = if magnitude + COARSE_STEP < range {
                magnitude + COARSE_STEP
            } else {
                range
            };
            let sign = if first.shift >= 0 {
                1int
            } else {
                -1int
            };
            let count = if hi >= lo {
                (hi - lo + 1) as nat
            } else {
                0nat
            };
            lemma_refine_in_range(coarse, p, c, w, h, sign, lo, count, range);
        }
    }
}

/// A candidate carries the difference of its own offset.
pub open spec fn scored(
    candidate: Option<Candidate>,
    prev: Seq<u32>,
    curr: Seq<u32>,
    w: int,
    h: int,
) -> bool {
    candidate matches Some(c) ==> c.score == shift_score(prev, curr, w, h, c.shift)
}

/// A candidate is no worse than the offset `shift`, where that offset counts.
pub open spec fn beats(
    candidate: Option<Candidate>,
    prev: Seq<u32>,
    curr: Seq<u32>,
    w: int,
    h: int,
    shift: int,
) -> bool {
    in_frame(h, shift) ==> candidate is Some && candidate->0.score <= shift_score(
        prev,
        curr,
        w,
        h,
        shift,
    )
}

/// The offset of the coarse pass with the given index, positive or negative.
pub open spec fn coarse_offset(index: int, positive: bool) -> int {
    if positive {
        MIN_DELTA + COARSE_STEP * index
    } else {
        -(MIN_DELTA + COARSE_STEP * index)
    }
}

/// Coarse winner: the winner of the coarse pass carries the difference of
/// its own offset, and no offset of the pass that counts has a smaller one,
/// whichever index below the number of steps it has and whichever direction
/// that is searched it goes in.
pub proof fn lemma_coarse_winner_is_lowest(
    prev: Seq<u32>,
    curr: Seq<u32>,
    w: int,
    h: int,
    direction: Option<Sign>,
    steps: nat,
    index: int,
    positive: bool,
)
    requires
        0 <= index < steps,
        positive ==> direction != Some(Sign::Negative),
        !positive ==> direction != Some(Sign::Positive),
    ensures
        scored(coarse_search(prev, curr, w, h, direction, steps), prev, curr, w, h),
        beats(
            coarse_search(prev, curr, w, h, direction, steps),
            prev,
            curr,
            w,
            h,
            coarse_offset(index, positive),
        ),
    decreases steps,
{
    lemma_coarse_scored(prev, curr, w, h, direction, steps);
    lemma_coarse_scored(prev, curr, w, h, direction, (steps - 1) as nat);
    if index < steps - 1 {
        lemma_coarse_winner_is_lowest(
            prev,
            curr,
            w,
            h,
            direction,
            (steps - 1) as nat,
            index,
            positive,
        );
    }
}

/// The winner of the coarse pass carries the difference of its own offset.
pub proof fn lemma_coarse_scored(
    prev: Seq<u32>,
    curr: Seq<u32>,
    w: int,
    h: int,
    direction: Option<Sign>,
    steps: nat,
)
    ensures
        scored(coarse_search(prev, curr, w, h, direction, steps), prev, curr, w, h),
    decreases steps,
{
    if steps > 0 {
        lemma_coarse_scored(prev, curr, w, h, direction, (steps - 1) as nat);
    }
}

/// Fine winner: the winner of the fine pass is no worse than the candidate
/// it started from and than every offset of the pass that counts.
pub proof fn lemma_refine_winner_is_lowest(
    start: Option<Candidate>,
    prev: Seq<u32>,
    curr: Seq<u32>,
    w: int,
    h: int,
    sign: int,
    lo: int,
    count: nat,
    k: int,
)
    requires
        scored(start, prev, curr, w, h),
        0 <= k < count,
    ensures
        scored(refine_search(start, prev, curr, w, h, sign, lo, count), prev, curr, w, h),
        beats(
            refine_search(start, prev, curr, w, h, sign, lo, count),
            prev,
            curr,
            w,
            h,
            sign * (lo + k),
        ),
        start matches Some(first) ==> refine_search(start, prev, curr, w, h, sign, lo, count)
            is Some && refine_search(start, prev, curr, w, h, sign, lo, count)->0.score
            <= first.score,
    decreases count,
{
    lemma_refine_scored(start, prev, curr, w, h, sign, lo, (count - 1) as nat);
    if k < count - 1 {
        lemma_refine_winner_is_lowest(start, prev, curr, w, h, sign, lo, (count - 1) as nat, k);
    }
}

/// The winner of the fine pass carries the difference of its own offset and
/// is no worse than the candidate it started from.
pub proof fn lemma_refine_scored(
    start: Option<Candidate>,
    prev: Seq<u32>,
    curr: Seq<u32>,
    w: int,
    h: int,
    sign: int,
    lo: int,
    count: nat,
)
    requires
        scored(start, prev, curr, w, h),
    ensures
        scored(refine_search(start, prev, curr, w, h, sign, lo, count), prev, curr, w, h),
        start matches Some(first) ==> refine_search(start, prev, curr, w, h, sign, lo, count)
            is Some && refine_search(start, prev, curr, w, h, sign, lo, count)->0.score
            <= first.score,
    decreases count,
{
    if count > 0 {
        lemma_refine_scored(start, prev, curr, w, h, sign, lo, (count - 1) as nat);
    }
}

/// The difference of one sample at an offset: that between the sample in
/// the given row and column of the reference plane and the sample `shift`
/// rows further up in the new plane.
pub open spec fn moved_diff(
    prev: Seq<u32>,
    curr: Seq<u32>,
    w: int,
    shift: int,
    row: int,
    col: int,
) -> int {
    sample_diff(prev, curr, row * w + col, (row - shift) * w + col)
}

/// A row of the reference plane and the row `shift` rows further up in the
/// new plane sum to zero where none of their samples differ.
proof fn lemma_moved_row_zero(
    prev: Seq<u32>,
    curr: Seq<u32>,
    w: int,
    shift: int,
    row: int,
    samples: nat,
)
    requires
        2 * samples <= w + 1,
        forall|col: int| 0 <= col < w ==> #[trigger] moved_diff(prev, curr, w, shift, row, col) == 0,
    ensures
        row_diff(prev, curr, row * w, (row - shift) * w, samples) == 0,
    decreases samples,
{
    if samples > 0 {
        lemma_moved_row_zero(prev, curr, w, shift, row, (samples - 1) as nat);
        let col = 2 * (samples - 1);
        assert(moved_diff(prev, curr, w, shift, row, col) == 0);
    }
}

/// Sign of the offset, on planes: where every sample of the reference strip
/// is found `shift` rows further up in the new plane, the difference at the
/// offset `shift` is zero. For a positive `shift` that is a new frame which
/// shows the page further down.
pub proof fn lemma_moved_plane_scores_zero(
    prev: Seq<u32>,
    curr: Seq<u32>,
    w: int,
    h: int,
    shift: int,
    rows: nat,
)
    requires
        0 <= w,
        rows <= STRIP_HEIGHT,
        forall|row: int, col: int|
            template_y(h) <= row < template_y(h) + STRIP_HEIGHT && 0 <= col < w
                ==> #[trigger] moved_diff(prev, curr, w, shift, row, col) == 0,
    ensures
        strip_diff(prev, curr, w, template_y(h), template_y(h) - shift, rows) == 0,
        rows == STRIP_HEIGHT ==> shift_score(prev, curr, w, h, shift) == 0,
    decreases rows,
{
    if rows > 0 {
        lemma_moved_plane_scores_zero(prev, curr, w, h, shift, (rows - 1) as nat);
        let row = template_y(h) + rows - 1;
        assert((template_y(h) - shift + rows - 1) * w == (row - shift) * w) by (nonlinear_arith)
            requires
                row == template_y(h) + rows - 1,
        ;
        lemma_moved_row_zero(prev, curr, w, shift, row, sampled_columns(w));
    }
}

/// Sign of the offset, on frames: let two well-formed frames of the same
/// size be such that the new frame shows the page `shift` rows further
/// down, so that every pixel of the reference strip has the colour of the
/// pixel `shift` rows further up in the new frame. Then the difference at
/// the offset `shift` is zero: that offset, with that sign, is the perfect
/// match. For a scroll down the page `shift` is positive, and the rows that
/// the new frame adds are its last.
pub proof fn lemma_scrolled_frame_scores_zero(prev: RasterView, curr: RasterView, shift: int)
    requires
        prev.wf(),
        curr.wf(),
        prev.width == curr.width,
        prev.height == curr.height,
        prev.height >= STRIP_HEIGHT,
        in_frame(prev.height as int, shift),
        forall|x: int, y: int, c: int|
            0 <= x < prev.width && template_y(prev.height as int) <= y < template_y(
                prev.height as int,
            ) + STRIP_HEIGHT && 0 <= c < 3 ==> #[trigger] prev.channel(x, y, c) == curr.channel(
                x,
                y - shift,
                c,
            ),
    ensures
        shift_score(
            luma_plane(prev),
            luma_plane(curr),
            prev.width as int,
            prev.height as int,
            shift,
        ) == 0,
{
    let w = prev.width as int;
    let h = prev.height as int;
    let p = luma_plane(prev);
    let q = luma_plane(curr);
    assert forall|row: int, col: int|
        template_y(h) <= row < template_y(h) + STRIP_HEIGHT && 0 <= col < w implies #[trigger] moved_diff(
        p,
        q,
        w,
        shift,
        row,
        col,
    ) == 0 by {
        crate::raster::lemma_channel_index(prev, col, row, 0);
        crate::raster::lemma_channel_index(curr, col, row - shift, 0);
        let pi = row * w + col;
        let qi = (row - shift) * w + col;
        assert(prev.channel(col, row, 0) == curr.channel(col, row - shift, 0));
        assert(prev.channel(col, row, 1) == curr.channel(col, row - shift, 1));
        assert(prev.channel(col, row, 2) == curr.channel(col, row - shift, 2));
        assert(prev.pixels[4 * pi] == prev.channel(col, row, 0));
        assert(prev.pixels[4 * pi + 1] == prev.channel(col, row, 1));
        assert(prev.pixels[4 * pi + 2] == prev.channel(col, row, 2));
        assert(curr.pixels[4 * qi] == curr.channel(col, row - shift, 0));
        assert(curr.pixels[4 * qi + 1] == curr.channel(col, row - shift, 1));
        assert(curr.pixels[4 * qi + 2] == curr.channel(col, row - shift, 2));
        assert(p[pi] == q[qi]);
    }
    lemma_moved_plane_scores_zero(p, q, w, h, shift, STRIP_HEIGHT as nat);
}

} // verus!
