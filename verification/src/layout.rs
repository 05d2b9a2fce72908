//! Render-surface layout arithmetic.
//!
//! Everything the render loop derives from the terminal size lives here:
//! how many bands and legend segments a given width supports, how tall a
//! bar is for a band value, which band a screen column shows, and how the
//! legend row is split into labeled segments.

use vstd::prelude::*;

verus! {

use vstd::arithmetic::div_mod::{lemma_multiply_divide_lt, lemma_multiply_divide_le};

/// Narrowest total terminal width (borders included) the visualization uses.
pub const MIN_TOTAL_WIDTH: u16 = 80;

/// Widest total width the display will spread over, to cap render cost.
pub const MAX_TOTAL_WIDTH: u16 = 160;

/// Shortest total terminal height the visualization uses.
pub const MIN_TOTAL_HEIGHT: u16 = 20;

/// Columns inside the display that actually carry bars: the display is
/// capped at `MAX_TOTAL_WIDTH` and loses four border columns.
pub open spec fn usable_width_spec(width: int) -> int {
    (if width < MAX_TOTAL_WIDTH as int { width } else { MAX_TOTAL_WIDTH as int }) - 4
}

/// One band per usable column.
pub open spec fn bands_for_width_spec(width: int) -> int {
    usable_width_spec(width)
}

/// One legend segment per ten usable columns, kept between 8 and 16.
pub open spec fn legends_for_width_spec(width: int) -> int {
    let raw = usable_width_spec(width) / 10;
    if raw < 8 {
        8
    } else if raw > 16 {
        16
    } else {
        raw
    }
}

/// Band count and legend-segment count for a terminal of the given width.
pub fn layout_for_width(width: u16) -> (r: (usize, usize))
    requires
        width >= MIN_TOTAL_WIDTH,
    ensures
        r.0 == bands_for_width_spec(width as int),
        r.1 == legends_for_width_spec(width as int),
        76 <= r.0 <= 156,
        8 <= r.1 <= 16,
{
    let capped = if width < MAX_TOTAL_WIDTH { width } else { MAX_TOTAL_WIDTH };
    let usable = (capped - 4) as usize;
    let raw = usable / 10;
    let legends = if raw < 8 { 8 } else if raw > 16 { 16 } else { raw };
    (usable, legends)
}

/// Bar height in rows for a band value on the 0..=100 scale: proportional
/// to the value, but never less than one row, so a silent band still
/// leaves a mark.
pub open spec fn bar_height_spec(value: int, rows: int) -> int {
    let h = (value * rows) / 100;
    if h < 1 {
        1
    } else {
        h
    }
}

pub fn bar_height(value: u64, rows: usize) -> (r: usize)
    requires
        value <= 100,
        rows <= 0xFFFF,
    ensures
        r == bar_height_spec(value as int, rows as int),
        1 <= r,
        rows >= 1 ==> r <= rows,
{
    proof {
        assert((value as int) * (rows as int) <= 100 * (rows as int)) by (nonlinear_arith)
            requires value <= 100, rows >= 0;
        lemma_multiply_divide_le((value as int) * (rows as int), 100, rows as int);
    }
    let h = (value as usize * rows) / 100;
    if h < 1 {
        1
    } else {
        h
    }
}

/// The band shown in screen column `col` of `width`: columns map onto
/// bands proportionally, and the result always names a real band.
pub fn column_band(col: usize, width: usize, n: usize) -> (r: usize)
    requires
        col < width,
        1 <= n <= 0xFFFF,
        width <= 0xFFFF,
    ensures
        r == (col * n) / (width as int),
        r < n,
{
    proof {
        assert((col as int) * (n as int) < (width as int) * (n as int)) by (nonlinear_arith)
            requires col < width, n >= 1;
        assert((col as int) * (n as int) <= 0xFFFF * 0xFFFF) by (nonlinear_arith)
            requires 0 <= col <= 0xFFFF, 0 <= n <= 0xFFFF;
        lemma_multiply_divide_lt((col as int) * (n as int), width as int, n as int);
    }
    (col * n) / width
}

/// The band whose start frequency labels legend item `i` of `legends`:
/// legend items sample the band range proportionally.
pub fn legend_band_index(i: usize, n: usize, legends: usize) -> (r: usize)
    requires
        1 <= legends <= 16,
        i <= legends,
        n <= 0xFFFF,
    ensures
        r == (i * n) / (legends as int),
        i < legends ==> r < n || n == 0,
        r <= n,
{
    proof {
        assert((i as int) * (n as int) <= (legends as int) * (n as int)) by (nonlinear_arith)
            requires i <= legends, n >= 0;
        assert((i as int) * (n as int) <= 16 * 0xFFFF) by (nonlinear_arith)
            requires 0 <= i <= 16, 0 <= n <= 0xFFFF;
        lemma_multiply_divide_le((i as int) * (n as int), legends as int, n as int);
        if i < legends && n > 0 {
            assert((i as int) * (n as int) < (legends as int) * (n as int)) by (nonlinear_arith)
                requires i < legends, n >= 1;
            lemma_multiply_divide_lt((i as int) * (n as int), legends as int, n as int);
        }
    }
    (i * n) / legends
}

/// How many decimal digits a label needs.
pub open spec fn digits_spec(x: int) -> int
    decreases x,
{
    if x < 10 {
        1
    } else {
        1 + digits_spec(x / 10)
    }
}

pub fn num_digits(x: usize) -> (d: usize)
    ensures
        d == digits_spec(x as int),
        1 <= d <= 20,
    decreases x,
{
    if x < 10 {
        1
    } else {
        proof {
            assert(digits_spec(x as int) == 1 + digits_spec(x as int / 10));
        }
        let rest = num_digits(x / 10);
        if rest >= 20 {
            proof {
                lemma_digits_small(x as int);
            }
            20
        } else {
            1 + rest
        }
    }
}

proof fn lemma_digits_small(x: int)
    requires
        0 <= x < 0x1_0000_0000_0000_0000,
    ensures
        digits_spec(x) <= 20,
{
    reveal_with_fuel(pow10_spec, 21);
    lemma_digits_at_most(x, 0x1_0000_0000_0000_0000, 20);
}

proof fn lemma_digits_at_most(x: int, cap: int, d: int)
    requires
        0 <= x < cap,
        1 <= d,
        cap <= pow10_spec(d),
    ensures
        digits_spec(x) <= d,
    decreases d,
{
    if x >= 10 {
        lemma_digits_at_most(x / 10, pow10_spec(d - 1), d - 1);
    }
}

pub open spec fn pow10_spec(d: int) -> int
    decreases d,
{
    if d <= 0 {
        1
    } else {
        10 * pow10_spec(d - 1)
    }
}

/// A frequency ready for display: below one kilohertz it reads as whole
/// hertz, above it as kilohertz with one decimal.
pub struct FreqLabel {
    pub khz: bool,
    pub value: u64,
    pub tenths: u64,
}

/// Splits a frequency in hertz into its display form.
pub fn freq_label(hz: u64) -> (r: FreqLabel)
    ensures
        r.khz <==> hz >= 1000,
        !r.khz ==> r.value == hz && r.tenths == 0,
        r.khz ==> r.value == hz as int / 1000 && r.tenths == (hz as int % 1000) / 100,
        r.tenths <= 9,
{
    if hz < 1000 {
        FreqLabel { khz: false, value: hz, tenths: 0 }
    } else {
        FreqLabel { khz: true, value: hz / 1000, tenths: (hz % 1000) / 100 }
    }
}

/// Splits a duration in milliseconds into whole seconds and hundredths
/// for the status line.
pub fn time_parts(ms: u64) -> (r: (u64, u64))
    ensures
        r.0 == ms as int / 1000,
        r.1 == (ms as int % 1000) / 10,
        r.1 <= 99,
{
    (ms / 1000, (ms % 1000) / 10)
}

/// One segment of the legend row: a leading separator bar, dashes of
/// padding around either the one-based label or a `*` placeholder where
/// the label does not fit.
pub struct LegendSeg {
    pub label: usize,
    pub left_pad: usize,
    pub right_pad: usize,
    pub star: bool,
}

/// The padding split for a label of `label_width` digits inside a segment
/// of `seg_width` cells (one cell goes to the separator bar): left half
/// rounds down, right half takes the rest.
pub open spec fn pad_split_spec(seg_width: int, label_width: int) -> (int, int) {
    let pad = if seg_width >= label_width + 1 {
        seg_width - label_width - 1
    } else {
        0
    };
    (pad / 2, pad - pad / 2)
}

/// The cells a rendered legend segment occupies: the separator bar, the
/// padding on both sides, and the label (one cell for a `*`).
pub open spec fn seg_cells_spec(label: int, left_pad: int, right_pad: int, star: bool) -> int {
    1 + left_pad + right_pad + if star { 1int } else { digits_spec(label) }
}

/// A segment whose label fits occupies exactly its allotted width: the
/// two pads and the label close the gap beside the separator bar.
pub proof fn lemma_pad_split_fills_segment(seg_width: int, label: int)
    requires
        digits_spec(label) + 1 <= seg_width,
    ensures
        ({
            let (lp, rp) = pad_split_spec(seg_width, digits_spec(label));
            seg_cells_spec(label, lp, rp, false) == seg_width
        }),
{
}

/// The legend row for `total_width` cells split into `count` segments:
/// `count` equal segments labeled 1..=count, plus, when division leaves a
/// remainder, one trailing segment whose label (or a `*` when it cannot
/// fit) marks the leftover cells.
pub fn legend_row(total_width: usize, count: usize) -> (r: Vec<LegendSeg>)
    requires
        1 <= count <= 16,
        total_width <= 0xFFFF,
    ensures
        r.len() == count + if (total_width as int) % (count as int) > 0 { 1int } else { 0int },
        forall|i: int| 0 <= i < count ==> {
            let seg_width = total_width as int / count as int;
            let (lp, rp) = pad_split_spec(seg_width, digits_spec(i + 1));
            &&& (#[trigger] r@[i]).label == i + 1
            &&& !r@[i].star
            &&& r@[i].left_pad == lp
            &&& r@[i].right_pad == rp
        },
        (total_width as int) % (count as int) > 0 ==> {
            let rem = total_width as int % count as int;
            let last = r@[count as int];
            &&& last.label == count + 1
            &&& (rem == 1 ==> last.star && last.left_pad == 0 && last.right_pad == 0)
            &&& (rem == 2 ==> last.left_pad == 0 && last.right_pad == 0
                && (last.star <==> digits_spec(count + 1) != 1))
            &&& (rem > 2 ==> {
                let (lp, rp) = pad_split_spec(rem, digits_spec(count + 1));
                !last.star && last.left_pad == lp && last.right_pad == rp
            })
        },
{
    let seg_width = total_width / count;
    let rem = total_width % count;
    let mut out: Vec<LegendSeg> = Vec::new();
    let mut i: usize = 0;
    while i < count
        invariant
            i <= count,
            count >= 1,
            out.len() == i,
            seg_width == total_width as int / count as int,
            forall|j: int| 0 <= j < i ==> {
                let (lp, rp) = pad_split_spec(seg_width as int, digits_spec(j + 1));
                &&& (#[trigger] out@[j]).label == j + 1
                &&& !out@[j].star
                &&& out@[j].left_pad == lp
                &&& out@[j].right_pad == rp
            },
        decreases count - i,
    {
        let label = i + 1;
        let width = num_digits(label);
        let pad = if seg_width >= width + 1 { seg_width - width - 1 } else { 0 };
        out.push(LegendSeg { label, left_pad: pad / 2, right_pad: pad - pad / 2, star: false });
        i += 1;
    }
    if rem > 0 {
        let label = count + 1;
        let width = num_digits(label);
        if rem == 1 {
            out.push(LegendSeg { label, left_pad: 0, right_pad: 0, star: true });
        } else if rem == 2 {
            out.push(LegendSeg { label, left_pad: 0, right_pad: 0, star: width != 1 });
        } else {
            let pad = if rem >= width + 1 { rem - width - 1 } else { 0 };
            out.push(LegendSeg { label, left_pad: pad / 2, right_pad: pad - pad / 2, star: false });
        }
    }
    out
}

} // verus!
