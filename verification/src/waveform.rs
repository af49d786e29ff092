//! Waveform rendering: min/max reduction of a sample range into per-pixel
//! columns, and rasterization of the columns into an RGBA byte buffer.

use vstd::prelude::*;
use crate::clip::AudioClip;
use crate::sample::{
    key_of, min_bits, max_bits, sample_min, sample_max, to_q32, to_q32_spec,
    ONE_BITS, NEG_ONE_BITS, ZERO_BITS,
};

verus! {

/// One horizontal pixel of the waveform: the extremes of its sample
/// window, as binary32 bit patterns.
#[derive(Clone, Copy, Debug, PartialEq, Eq, Structural)]
pub struct DisplayColumn {
    pub min: u32,
    pub max: u32,
}

/// The smallest sample of `s[lo..hi]` in the total order, folded from an
/// initial +1.0 as the renderer does.
pub open spec fn window_min(s: Seq<u32>, lo: int, hi: int) -> u32
    decreases hi - lo,
{
    if hi <= lo {
        ONE_BITS
    } else {
        min_bits(window_min(s, lo, hi - 1), s[hi - 1])
    }
}

/// The largest sample of `s[lo..hi]` in the total order, folded from an
/// initial -1.0.
pub open spec fn window_max(s: Seq<u32>, lo: int, hi: int) -> u32
    decreases hi - lo,
{
    if hi <= lo {
        NEG_ONE_BITS
    } else {
        max_bits(window_max(s, lo, hi - 1), s[hi - 1])
    }
}

/// The column drawn for the window `s[lo..hi]`: its clamped extremes, or
/// `(0, 0)` when the window holds no sample.
pub open spec fn column_of(s: Seq<u32>, lo: int, hi: int) -> DisplayColumn {
    let mn = window_min(s, lo, hi);
    let mx = window_max(s, lo, hi);
    if key_of(mn) > key_of(mx) {
        DisplayColumn { min: ZERO_BITS, max: ZERO_BITS }
    } else {
        DisplayColumn {
            min: if key_of(mn) < key_of(NEG_ONE_BITS) {
                NEG_ONE_BITS
            } else {
                mn
            },
            max: if key_of(mx) > key_of(ONE_BITS) {
                ONE_BITS
            } else {
                mx
            },
        }
    }
}

/// Start of the sample range: the requested start clamped to the buffer.
pub open spec fn range_lo(len: int, a0: int) -> int {
    if a0 < len {
        a0
    } else {
        len
    }
}

/// End of the sample range: the requested end clamped to the buffer and
/// forced not to precede the start.
pub open spec fn range_hi(len: int, a0: int, b0: int) -> int {
    let a = range_lo(len, a0);
    let b = if b0 < len {
        b0
    } else {
        len
    };
    if b < a {
        a
    } else {
        b
    }
}

/// Left edge of column `i` when `[a, b)` is split over `pixels` columns.
pub open spec fn column_edge(a: int, b: int, pixels: int, i: int) -> int {
    a + (b - a) * i / pixels
}

/// The whole column sequence the waveform renderer emits for a request.
pub open spec fn waveform_columns(s: Seq<u32>, a0: int, b0: int, pixels: int) -> Seq<
    DisplayColumn,
> {
    Seq::new(
        pixels as nat,
        |i: int| column_of(
            s,
            column_edge(range_lo(s.len() as int, a0), range_hi(s.len() as int, a0, b0), pixels, i),
            column_edge(
                range_lo(s.len() as int, a0),
                range_hi(s.len() as int, a0, b0),
                pixels,
                i + 1,
            ),
        ),
    )
}

/// Every column edge stays inside `[a, b]`, and edges advance with `i`.
proof fn lemma_column_edge_bounds(a: int, b: int, pixels: int, i: int)
    requires
        0 < pixels,
        a <= b,
        0 <= i <= pixels,
    ensures
        a <= column_edge(a, b, pixels, i) <= b,
        i < pixels ==> column_edge(a, b, pixels, i) <= column_edge(a, b, pixels, i + 1),
{
    let d = b - a;
    assert(0 <= d * i) by (nonlinear_arith)
        requires
            0 <= d && 0 <= i,
    ;
    assert(d * i <= d * pixels) by (nonlinear_arith)
        requires
            0 <= d && i <= pixels,
    ;
    assert(d * pixels / pixels == d) by (nonlinear_arith)
        requires
            0 < pixels,
    ;
    vstd::arithmetic::div_mod::lemma_div_is_ordered(0, d * i, pixels);
    vstd::arithmetic::div_mod::lemma_div_is_ordered(d * i, d * pixels, pixels);
    if i < pixels {
        assert(d * i <= d * (i + 1)) by (nonlinear_arith)
            requires
                0 <= d,
        ;
        vstd::arithmetic::div_mod::lemma_div_is_ordered(d * i, d * (i + 1), pixels);
    }
}

impl AudioClip {
    /// Reduces the half-open sample range `[range.0, range.1)`, clamped to
    /// the buffer, to `pixels` columns of window extremes. Every requested
    /// pixel yields a column; an empty window yields `(0, 0)`; the column
    /// values are clamped into [-1, 1].
    pub fn render_waveform(&self, range: (usize, usize), pixels: usize) -> (r: Vec<DisplayColumn>)
        requires
            self.samples@.len() <= 0xFFFF_FFFF,
            pixels <= 0xFFFF_FFFF,
        ensures
            r@.len() == pixels,
            forall|i: int|
                0 <= i < pixels ==> r@[i] == column_of(
                    self.samples@,
                    column_edge(
                        range_lo(self.samples@.len() as int, range.0 as int),
                        range_hi(self.samples@.len() as int, range.0 as int, range.1 as int),
                        pixels as int,
                        i,
                    ),
                    column_edge(
                        range_lo(self.samples@.len() as int, range.0 as int),
                        range_hi(self.samples@.len() as int, range.0 as int, range.1 as int),
                        pixels as int,
                        i + 1,
                    ),
                ),
            r@ == waveform_columns(self.samples@, range.0 as int, range.1 as int, pixels as int),
    {
        let len: usize = self.samples.len();
        let mut out: Vec<DisplayColumn> = Vec::new();
        if pixels == 0 {
            proof {
                assert(out@ =~= waveform_columns(
                    self.samples@,
                    range.0 as int,
                    range.1 as int,
                    pixels as int,
                ));
            }
            return out;
        }
        let a: usize = if range.0 < len {
            range.0
        } else {
            len
        };
        let b0: usize = if range.1 < len {
            range.1
        } else {
            len
        };
        let b: usize = if b0 < a {
            a
        } else {
            b0
        };
        let d: u64 = (b - a) as u64;

        let ghost slo = range_lo(len as int, range.0 as int);
        let ghost shi = range_hi(len as int, range.0 as int, range.1 as int);
        assert(a == slo && b == shi);

        let mut i: usize = 0;
        while i < pixels
            invariant
                len == self.samples@.len(),
                len <= 0xFFFF_FFFF,
                pixels <= 0xFFFF_FFFF,
                0 < pixels,
                a <= b <= len,
                d == b - a,
                a == slo,
                b == shi,
                i <= pixels,
                out@.len() == i,
                forall|c: int|
                    0 <= c < i ==> out@[c] == column_of(
                        self.samples@,
                        column_edge(a as int, b as int, pixels as int, c),
                        column_edge(a as int, b as int, pixels as int, c + 1),
                    ),
            decreases pixels - i,
        {
            proof {
                lemma_column_edge_bounds(a as int, b as int, pixels as int, i as int);
                lemma_column_edge_bounds(a as int, b as int, pixels as int, i + 1);
                vstd::arithmetic::mul::lemma_mul_upper_bound(
                    d as int,
                    0xFFFF_FFFF,
                    i as int,
                    0xFFFF_FFFF,
                );
                vstd::arithmetic::mul::lemma_mul_upper_bound(
                    d as int,
                    0xFFFF_FFFF,
                    i + 1,
                    0x1_0000_0000,
                );
            }
            let start: usize = a + ((d * (i as u64)) / (pixels as u64)) as usize;
            let end: usize = a + ((d * ((i as u64) + 1)) / (pixels as u64)) as usize;
            assert(start == column_edge(a as int, b as int, pixels as int, i as int));
            assert(end == column_edge(a as int, b as int, pixels as int, i + 1));

            let mut mn: u32 = ONE_BITS;
            let mut mx: u32 = NEG_ONE_BITS;
            let mut k: usize = start;
            while k < end
                invariant
                    start <= k <= end,
                    end <= len == self.samples@.len(),
                    mn == window_min(self.samples@, start as int, k as int),
                    mx == window_max(self.samples@, start as int, k as int),
                decreases end - k,
            {
                let s = self.samples[k];
                mn = sample_min(mn, s);
                mx = sample_max(mx, s);
                proof {
                    // The left-fold step agrees with the spec's right unrolling.
                    assert(window_min(self.samples@, start as int, k + 1) == min_bits(
                        window_min(self.samples@, start as int, k as int),
                        self.samples@[k as int],
                    ));
                    assert(window_max(self.samples@, start as int, k + 1) == max_bits(
                        window_max(self.samples@, start as int, k as int),
                        self.samples@[k as int],
                    ));
                }
                k = k + 1;
            }

            let col = if !crate::sample::sample_le(mn, mx) {
                DisplayColumn { min: ZERO_BITS, max: ZERO_BITS }
            } else {
                DisplayColumn {
                    min: if !crate::sample::sample_le(NEG_ONE_BITS, mn) {
                        NEG_ONE_BITS
                    } else {
                        mn
                    },
                    max: if !crate::sample::sample_le(mx, ONE_BITS) {
                        ONE_BITS
                    } else {
                        mx
                    },
                }
            };
            assert(col == column_of(
                self.samples@,
                column_edge(a as int, b as int, pixels as int, i as int),
                column_edge(a as int, b as int, pixels as int, i + 1),
            ));
            out.push(col);
            i = i + 1;
        }
        proof {
            assert(out@ =~= waveform_columns(
                self.samples@,
                range.0 as int,
                range.1 as int,
                pixels as int,
            ));
        }
        out
    }
}

/// Every rendered column lies in [-1, 1] in the total order, and an empty
/// request (equal range endpoints) renders as silence: all columns `(0, 0)`.
pub proof fn lemma_waveform_column_range(s: Seq<u32>, lo: int, hi: int)
    ensures
        key_of(NEG_ONE_BITS) <= key_of(column_of(s, lo, hi).min) <= key_of(ONE_BITS),
        key_of(NEG_ONE_BITS) <= key_of(column_of(s, lo, hi).max) <= key_of(ONE_BITS),
        lo >= hi ==> column_of(s, lo, hi) == (DisplayColumn { min: ZERO_BITS, max: ZERO_BITS }),
{
    lemma_sample_constant_keys();
    lemma_window_fold_order(s, lo, hi);
}

/// The ordering keys of the renderer's three constant samples.
pub proof fn lemma_sample_constant_keys()
    ensures
        key_of(ZERO_BITS) == 0,
        key_of(ONE_BITS) == 0x3F80_0000,
        key_of(NEG_ONE_BITS) == -0x3F80_0001,
{
    assert(0xBF80_0000u32 & 0x7FFF_FFFF == 0x3F80_0000u32) by (bit_vector);
    assert(0xBF80_0000u32 >> 31 == 1u32) by (bit_vector);
    assert(0x3F80_0000u32 >> 31 == 0u32) by (bit_vector);
    assert(0x3F80_0000u32 & 0x7FFF_FFFF == 0x3F80_0000u32) by (bit_vector);
    assert(0u32 >> 31 == 0u32) by (bit_vector);
    assert(0u32 & 0x7FFF_FFFF == 0u32) by (bit_vector);
}

/// The folded window minimum never exceeds +1.0 and the folded maximum
/// never drops below -1.0.
proof fn lemma_window_fold_order(s: Seq<u32>, lo: int, hi: int)
    ensures
        key_of(window_min(s, lo, hi)) <= key_of(ONE_BITS),
        key_of(window_max(s, lo, hi)) >= key_of(NEG_ONE_BITS),
    decreases hi - lo,
{
    if hi <= lo {
    } else {
        lemma_window_fold_order(s, lo, hi - 1);
    }
}

/// An empty request renders as silence: when the two range endpoints
/// agree, every window collapses and every rendered column is `(0, 0)`.
pub proof fn lemma_equal_range_renders_silence(s: Seq<u32>, a0: int, pixels: int, i: int)
    requires
        0 < pixels,
        0 <= i < pixels,
    ensures
        column_of(
            s,
            column_edge(
                range_lo(s.len() as int, a0),
                range_hi(s.len() as int, a0, a0),
                pixels,
                i,
            ),
            column_edge(
                range_lo(s.len() as int, a0),
                range_hi(s.len() as int, a0, a0),
                pixels,
                i + 1,
            ),
        ) == (DisplayColumn { min: ZERO_BITS, max: ZERO_BITS }),
{
    let a = range_lo(s.len() as int, a0);
    assert(range_hi(s.len() as int, a0, a0) == a);
    assert(0 * i == 0 && 0 * (i + 1) == 0) by (nonlinear_arith);
    vstd::arithmetic::div_mod::lemma_basic_div(0, pixels);
    assert(column_edge(a, a, pixels, i) == a);
    assert(column_edge(a, a, pixels, i + 1) == a);
    lemma_waveform_column_range(s, a, a);
}

/// The first raster row (from the bottom) a column's minimum covers:
/// `floor(h * (min + 1) / 2)`, the sample read in Q32 fixed point.
pub open spec fn row_lo_of(b: u32, h: int) -> int {
    h * (to_q32_spec(b) + 0x1_0000_0000) / 0x2_0000_0000
}

/// The last raster row a column's maximum covers:
/// `ceil(h * (max + 1) / 2)`.
pub open spec fn row_hi_of(b: u32, h: int) -> int {
    (h * (to_q32_spec(b) + 0x1_0000_0000) + 0x1_FFFF_FFFF) / 0x2_0000_0000
}

/// Whether the waveform covers a row (counted from the bottom) in a
/// column.
pub open spec fn row_covered(col: DisplayColumn, h: int, row: int) -> bool {
    row_lo_of(col.min, h) <= row <= row_hi_of(col.max, h)
}

/// The fixed accent color covered pixels are painted with, channel by
/// channel; everything else stays transparent black.
pub open spec fn accent_byte(ch: int) -> u8 {
    if ch == 0 {
        0x26
    } else if ch == 1 {
        0x6B
    } else if ch == 2 {
        0xD2
    } else {
        0xFF
    }
}

/// The byte at a flat position of the raster: the raster is row-major
/// from the top-left, four bytes a pixel, and a pixel shows the accent
/// exactly when its column covers its bottom-up row.
pub open spec fn raster_byte(cols: Seq<DisplayColumn>, h: int, i: int) -> u8 {
    let pix = i / 4;
    let ch = i % 4;
    let y = pix / (cols.len() as int);
    let x = pix % (cols.len() as int);
    if row_covered(cols[x], h, h - 1 - y) {
        accent_byte(ch)
    } else {
        0
    }
}

/// A column's extremes sit inside [-1, 1] in the total order, as the
/// waveform renderer leaves them.
pub open spec fn column_in_band(col: DisplayColumn) -> bool {
    &&& key_of(NEG_ONE_BITS) <= key_of(col.min) <= key_of(ONE_BITS)
    &&& key_of(NEG_ONE_BITS) <= key_of(col.max) <= key_of(ONE_BITS)
}

/// Rasterizes waveform columns onto a `cols.len() * height` RGBA canvas.
pub fn rasterize_waveform(cols: &Vec<DisplayColumn>, height: usize) -> (r: Vec<u8>)
    requires
        cols@.len() <= 0xFFFF,
        height <= 0xFFFF,
        forall|c: int| 0 <= c < cols@.len() ==> column_in_band(#[trigger] cols@[c]),
    ensures
        r@.len() == cols@.len() * height * 4,
        forall|i: int| 0 <= i < r@.len() ==> #[trigger] r@[i] == raster_byte(
            cols@,
            height as int,
            i,
        ),
{
    let w = cols.len();
    let mut out: Vec<u8> = Vec::new();
    let mut y: usize = 0;
    while y < height
        invariant
            w == cols@.len(),
            w <= 0xFFFF,
            height <= 0xFFFF,
            forall|c: int| 0 <= c < cols@.len() ==> column_in_band(#[trigger] cols@[c]),
            y <= height,
            out@.len() == y * w * 4,
            forall|i: int| 0 <= i < out@.len() ==> #[trigger] out@[i] == raster_byte(
                cols@,
                height as int,
                i,
            ),
        decreases height - y,
    {
        let mut x: usize = 0;
        while x < w
            invariant
                w == cols@.len(),
                w <= 0xFFFF,
                height <= 0xFFFF,
                forall|c: int| 0 <= c < cols@.len() ==> column_in_band(#[trigger] cols@[c]),
                y < height,
                x <= w,
                out@.len() == (y * w + x) * 4,
                forall|i: int| 0 <= i < out@.len() ==> #[trigger] out@[i] == raster_byte(
                    cols@,
                    height as int,
                    i,
                ),
            decreases w - x,
        {
            let col = &cols[x];
            proof {
                crate::sample::lemma_unit_band_q32(col.min);
                crate::sample::lemma_unit_band_q32(col.max);
            }
            let q_min: i64 = to_q32(col.min);
            let q_max: i64 = to_q32(col.max);
            proof {
                lemma_band_product_bounds(height as int, q_min as int);
                lemma_band_product_bounds(height as int, q_max as int);
            }
            let lo: u64 = ((height as u64) * ((q_min + 0x1_0000_0000) as u64)) / 0x2_0000_0000;
            let hi: u64 = ((height as u64) * ((q_max + 0x1_0000_0000) as u64) + 0x1_FFFF_FFFF)
                / 0x2_0000_0000;
            let row: u64 = (height - 1 - y) as u64;
            let covered: bool = lo <= row && row <= hi;
            let ghost len0 = out@.len() as int;
            if covered {
                out.push(0x26);
                out.push(0x6B);
                out.push(0xD2);
                out.push(0xFF);
            } else {
                out.push(0);
                out.push(0);
                out.push(0);
                out.push(0);
            }
            proof {
                lemma_raster_pixel_bytes(cols@, height as int, y as int, x as int);
                assert((y * w + x + 1) * 4 == (y * w + x) * 4 + 4) by (nonlinear_arith);
                assert forall|i: int| 0 <= i < out@.len() implies #[trigger] out@[i]
                    == raster_byte(cols@, height as int, i) by {
                    if i >= len0 {
                        assert(i / 4 == y * w + x && i % 4 == i - len0) by {
                            vstd::arithmetic::div_mod::lemma_fundamental_div_mod_converse(
                                i,
                                4,
                                y * (w as int) + x,
                                i - len0,
                            );
                        }
                    }
                }
            }
            x = x + 1;
        }
        proof {
            assert((y + 1) * w * 4 == (y * w + w) * 4) by (nonlinear_arith);
        }
        y = y + 1;
    }
    proof {
        assert(height * w * 4 == w * height * 4) by (nonlinear_arith);
        assert(cols@.len() * height * 4 == w * height * 4);
    }
    out
}

/// The pixel at column `x`, raster row `y` decomposes the flat index as
/// the raster layout expects.
proof fn lemma_raster_pixel_bytes(cols: Seq<DisplayColumn>, h: int, y: int, x: int)
    requires
        0 <= x < cols.len(),
        0 <= y,
    ensures
        forall|ch: int| 0 <= ch < 4 ==> raster_byte(cols, h, #[trigger] ((y * cols.len() + x) * 4
            + ch)) == (if row_covered(cols[x], h, h - 1 - y) {
            accent_byte(ch)
        } else {
            0u8
        }),
{
    let w = cols.len() as int;
    assert forall|ch: int| 0 <= ch < 4 implies raster_byte(cols, h, #[trigger] ((y * w + x) * 4
        + ch)) == (if row_covered(cols[x], h, h - 1 - y) {
        accent_byte(ch)
    } else {
        0u8
    }) by {
        let i = (y * w + x) * 4 + ch;
        vstd::arithmetic::div_mod::lemma_fundamental_div_mod_converse(i, 4, y * w + x, ch);
        vstd::arithmetic::div_mod::lemma_fundamental_div_mod_converse(y * w + x, w, y, x);
    }
}

/// The scaled row products stay within the machine word for banded
/// samples and bounded rasters.
proof fn lemma_band_product_bounds(h: int, q: int)
    requires
        0 <= h <= 0xFFFF,
        -0x1_0000_0000 <= q <= 0x1_0000_0000,
    ensures
        0 <= h * (q + 0x1_0000_0000) <= 0xFFFF * 0x2_0000_0000,
{
    assert(0 <= h * (q + 0x1_0000_0000)) by (nonlinear_arith)
        requires
            0 <= h,
            0 <= q + 0x1_0000_0000,
    ;
    assert(h * (q + 0x1_0000_0000) <= 0xFFFF * 0x2_0000_0000) by (nonlinear_arith)
        requires
            0 <= h <= 0xFFFF,
            q + 0x1_0000_0000 <= 0x2_0000_0000,
    ;
}

impl AudioClip {
    /// Renders the clip's waveform over a sample range onto a
    /// `pixels * height` RGBA canvas: the column extremes, rasterized.
    pub fn render_waveform_raster(&self, range: (usize, usize), pixels: usize, height: usize) -> (
        r: Vec<u8>)
        requires
            self.samples@.len() <= 0xFFFF_FFFF,
            pixels <= 0xFFFF,
            height <= 0xFFFF,
        ensures
            r@.len() == pixels * height * 4,
            forall|i: int|
                0 <= i < r@.len() ==> #[trigger] r@[i] == raster_byte(
                    waveform_columns(
                        self.samples@,
                        range.0 as int,
                        range.1 as int,
                        pixels as int,
                    ),
                    height as int,
                    i,
                ),
    {
        let cols = self.render_waveform(range, pixels);
        proof {
            assert forall|c: int| 0 <= c < cols@.len() implies column_in_band(
                #[trigger] cols@[c],
            ) by {
                lemma_waveform_column_range(
                    self.samples@,
                    column_edge(
                        range_lo(self.samples@.len() as int, range.0 as int),
                        range_hi(self.samples@.len() as int, range.0 as int, range.1 as int),
                        pixels as int,
                        c,
                    ),
                    column_edge(
                        range_lo(self.samples@.len() as int, range.0 as int),
                        range_hi(self.samples@.len() as int, range.0 as int, range.1 as int),
                        pixels as int,
                        c + 1,
                    ),
                );
            }
        }
        rasterize_waveform(&cols, height)
    }
}

} // verus!
