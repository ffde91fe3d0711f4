//! The layout solver: where the image and the quote box go.
//!
//! Inputs are the terminal size in character cells, the image's pixel
//! dimensions, percentage caps and margins, the arrangement mode and the
//! quote's line count.  The solver starts the image at its percentage
//! boundary and shrinks it — one cell of width and two height units per
//! step — until the quote box fits beside or below it, then derives the
//! image and quote coordinates.
//!
//! All arithmetic is exact.  A fractional quantity `q` is carried as an
//! integer numerator over a fixed positive denominator; a cell coordinate is
//! produced from it by truncation toward zero, clamped to its unsigned range,
//! exactly as a saturating cast from a fractional value truncates.  One cell
//! of width corresponds to 100 numerator units when the denominator is 100,
//! so the shrink loop subtracts scaled constants.

use vstd::prelude::*;
use vstd::arithmetic::div_mod::lemma_fundamental_div_mod;
use vstd::arithmetic::div_mod::lemma_mod_division_less_than_divisor;
use vstd::arithmetic::div_mod::lemma_div_is_ordered;
use vstd::arithmetic::div_mod::lemma_div_nonincreasing;
use vstd::arithmetic::div_mod::lemma_div_pos_is_pos;
use vstd::arithmetic::mul::lemma_mul_inequality;

verus! {

/// The terminal's size in character cells.
#[derive(Clone, Copy, PartialEq, Eq, Structural, Debug)]
pub struct TerminalSize {
    pub columns: u16,
    pub rows: u16,
}

/// The image's pixel dimensions, from which its aspect ratio is derived.
/// Unknown dimensions are represented as zero.
#[derive(Clone, Copy, PartialEq, Eq, Structural, Debug)]
pub struct ImageAspect {
    pub pixel_width: u32,
    pub pixel_height: u32,
}

/// The arrangement of the image relative to the quote box: beside it in a
/// row, or above it in a column, each optionally centered.
#[derive(Clone, Copy, PartialEq, Eq, Structural, Debug)]
pub enum LayoutMode {
    Row,
    RowCentered,
    Col,
    ColCentered,
}

/// Percentage caps on the image's share of the terminal, and its margins.
/// The top margin may be negative.
#[derive(Clone, Copy, PartialEq, Eq, Structural, Debug)]
pub struct SizeConstraints {
    pub max_width_percent: u16,
    pub max_height_percent: u16,
    pub margin_left: u16,
    pub margin_top: i16,
}

/// The computed placement: the image's width in cells (its height follows
/// from the aspect ratio) and position, and the quote box's anchor.
#[derive(Clone, Copy, PartialEq, Eq, Structural, Debug)]
pub struct Layout {
    pub image_width: u32,
    pub image_x: u16,
    pub image_y: i16,
    pub quote_x: u16,
    pub quote_y: u16,
}

/// The smaller of two integers.
pub open spec fn spec_min(a: int, b: int) -> int {
    if a <= b {
        a
    } else {
        b
    }
}

/// The larger of two integers.
pub open spec fn spec_max(a: int, b: int) -> int {
    if a >= b {
        a
    } else {
        b
    }
}

/// Ceiling division, for positive divisors.
pub open spec fn ceil_div(a: int, b: int) -> int
    recommends
        b >= 1,
{
    (a + b - 1) / b
}

/// The fraction `num / den` truncated toward zero and clamped to `u16`,
/// as a saturating cast from an exact fractional value.
pub open spec fn clamp_u16(num: int, den: int) -> u16
    recommends
        den >= 1,
{
    if num <= 0 {
        0
    } else if num / den > 0xffff {
        0xffff
    } else {
        (num / den) as u16
    }
}

/// The fraction `num / den` truncated toward zero and clamped to `u32`.
pub open spec fn clamp_u32(num: int, den: int) -> u32
    recommends
        den >= 1,
{
    if num <= 0 {
        0
    } else if num / den > 0xffff_ffff {
        0xffff_ffff
    } else {
        (num / den) as u32
    }
}

impl ImageAspect {
    /// Numerator of the aspect ratio height/width; zero when the width is
    /// unknown, so an unknown image keeps height zero.
    pub open spec fn ratio_num(self) -> int {
        if self.pixel_width == 0 {
            0
        } else {
            self.pixel_height as int
        }
    }

    /// Denominator of the aspect ratio; always at least one.
    pub open spec fn ratio_den(self) -> int {
        if self.pixel_width == 0 {
            1
        } else {
            self.pixel_width as int
        }
    }
}

/// The drawable height in doubled vertical units: a cell is two units tall,
/// and sixteen rows are reserved for the prompt below the render, beside the
/// top margin.
pub open spec fn drawable_height(terminal: TerminalSize, constraints: SizeConstraints) -> int {
    (terminal.rows - 16 - constraints.margin_top) * 2
}

/// Numerator (over 100) of the image width at its percentage boundary, the
/// row-mode start value.
pub open spec fn row_width_num0(terminal: TerminalSize, constraints: SizeConstraints) -> int {
    terminal.columns * constraints.max_width_percent
}

/// Numerator (over 100 times the ratio denominator) of the image height at
/// the width boundary, the row-mode start value.
pub open spec fn row_height_num0(
    terminal: TerminalSize,
    aspect: ImageAspect,
    constraints: SizeConstraints,
) -> int {
    terminal.columns * constraints.max_width_percent * aspect.ratio_num()
}

/// The row-mode shrink condition, over the scaled width numerator `ncw`
/// (denominator 100) and height numerator `nch` (denominator 100 times the
/// ratio denominator `rd`).  It holds while any of these does: the space left
/// for the quote box is under 50 cells; the image height exceeds the drawable
/// height; the image height exceeds the height boundary less twice the top
/// margin; or image, quote box, quote margin and twice the left margin do not
/// fit in the columns.
pub open spec fn row_cond(
    terminal: TerminalSize,
    aspect: ImageAspect,
    constraints: SizeConstraints,
    ncw: int,
    nch: int,
) -> bool {
    let cols = terminal.columns as int;
    let lm = constraints.margin_left as int;
    let tm = constraints.margin_top as int;
    let mhp = constraints.max_height_percent as int;
    let rd = aspect.ratio_den();
    let h = drawable_height(terminal, constraints);
    ||| 100 * cols - ncw < 5000
    ||| nch > 100 * rd * h
    ||| nch > rd * (h * mhp - 200 * tm)
    ||| 100 * cols < ncw + 5500 + 200 * lm
}

/// The threshold on the width numerator below which neither width condition
/// of the row-mode shrink holds.
pub open spec fn row_width_threshold(terminal: TerminalSize, constraints: SizeConstraints) -> int {
    let cols = terminal.columns as int;
    let lm = constraints.margin_left as int;
    spec_min(100 * cols - 5000, 100 * cols - 5500 - 200 * lm)
}

/// The threshold on the height numerator below which neither height
/// condition of the row-mode shrink holds.
pub open spec fn row_height_threshold(
    terminal: TerminalSize,
    aspect: ImageAspect,
    constraints: SizeConstraints,
) -> int {
    let tm = constraints.margin_top as int;
    let mhp = constraints.max_height_percent as int;
    let rd = aspect.ratio_den();
    let h = drawable_height(terminal, constraints);
    spec_min(100 * rd * h, rd * (h * mhp - 200 * tm))
}

/// How many shrink steps row mode takes: each step takes one cell of width
/// (100 numerator units) and two height units (200 times the ratio
/// denominator), and the loop stops as soon as the condition fails.
pub open spec fn row_steps(
    terminal: TerminalSize,
    aspect: ImageAspect,
    constraints: SizeConstraints,
) -> int {
    let rd = aspect.ratio_den();
    let cw = ceil_div(
        row_width_num0(terminal, constraints) - row_width_threshold(terminal, constraints),
        100,
    );
    let ch = ceil_div(
        row_height_num0(terminal, aspect, constraints) - row_height_threshold(
            terminal,
            aspect,
            constraints,
        ),
        200 * rd,
    );
    spec_max(0, spec_max(cw, ch))
}

/// The row-mode layout.  After the shrink the image height is recomputed as
/// width times ratio less the top margin; the quote's vertical anchor is a
/// quarter of that height less half the line count, plus the top margin; its
/// horizontal anchor sits one quote margin right of the image.  Centered row
/// mode recomputes the image x so that image, quote box and margin center in
/// the terminal.
pub open spec fn row_layout(
    terminal: TerminalSize,
    aspect: ImageAspect,
    constraints: SizeConstraints,
    centered: bool,
    quote_line_count: int,
) -> Layout {
    let cols = terminal.columns as int;
    let lm = constraints.margin_left as int;
    let tm = constraints.margin_top as int;
    let rn = aspect.ratio_num();
    let rd = aspect.ratio_den();
    let ncw = row_width_num0(terminal, constraints) - 100 * row_steps(
        terminal,
        aspect,
        constraints,
    );
    Layout {
        image_width: clamp_u32(ncw, 100),
        image_x: if centered {
            clamp_u16(100 * cols - ncw - 5500, 200)
        } else {
            constraints.margin_left
        },
        image_y: constraints.margin_top,
        quote_x: if centered {
            clamp_u16(ncw + 100 * cols - 4500, 200)
        } else {
            clamp_u16(ncw + 100 * lm + 500, 100)
        },
        quote_y: clamp_u16(ncw * rn + 300 * rd * tm - 200 * rd * quote_line_count, 400 * rd),
    }
}

/// Numerator (over 100) of the image height at its percentage boundary, the
/// column-mode start value.
pub open spec fn col_height_num0(
    terminal: TerminalSize,
    constraints: SizeConstraints,
) -> int {
    drawable_height(terminal, constraints) * constraints.max_height_percent as int
}

/// The column-mode shrink condition, over the scaled width numerator `ncw`
/// (denominator 100 times the ratio numerator): the image width exceeds the
/// terminal columns or the width boundary.
pub open spec fn col_cond(
    terminal: TerminalSize,
    aspect: ImageAspect,
    constraints: SizeConstraints,
    ncw: int,
) -> bool {
    let cols = terminal.columns as int;
    let mwp = constraints.max_width_percent as int;
    let rn = aspect.ratio_num();
    ||| ncw > 100 * rn * cols
    ||| ncw > rn * cols * mwp
}

/// How many shrink steps column mode takes when the ratio is non-zero: each
/// step takes one cell of width (100 times the ratio numerator) and two
/// height units (200 numerator units).
pub open spec fn col_steps(
    terminal: TerminalSize,
    aspect: ImageAspect,
    constraints: SizeConstraints,
) -> int {
    let cols = terminal.columns as int;
    let mwp = constraints.max_width_percent as int;
    let rn = aspect.ratio_num();
    let rd = aspect.ratio_den();
    let ncw0 = col_height_num0(terminal, constraints) * rd;
    spec_max(0, ceil_div(ncw0 - spec_min(100 * rn * cols, rn * cols * mwp), 100 * rn))
}

/// The column-mode layout.  After the shrink the image width is recomputed
/// from the final height and the ratio; the quote box is centered
/// horizontally and anchored below half the image height plus the margins.
/// Centered column mode recomputes the image x to center the image alone.
/// A zero ratio leaves the width zero: a degenerate but defined placement.
pub open spec fn col_layout(
    terminal: TerminalSize,
    aspect: ImageAspect,
    constraints: SizeConstraints,
    centered: bool,
) -> Layout {
    let cols = terminal.columns as int;
    let tm = constraints.margin_top as int;
    let rn = aspect.ratio_num();
    let rd = aspect.ratio_den();
    if rn == 0 {
        Layout {
            image_width: 0,
            image_x: if centered {
                clamp_u16(cols, 2)
            } else {
                constraints.margin_left
            },
            image_y: constraints.margin_top,
            quote_x: clamp_u16(cols - 50, 2),
            quote_y: clamp_u16(col_height_num0(terminal, constraints) + 200 * tm + 1000, 200),
        }
    } else {
        let nch = col_height_num0(terminal, constraints) - 200 * col_steps(
            terminal,
            aspect,
            constraints,
        );
        Layout {
            image_width: clamp_u32(nch * rd, 100 * rn),
            image_x: if centered {
                clamp_u16(100 * rn * cols - nch * rd, 200 * rn)
            } else {
                constraints.margin_left
            },
            image_y: constraints.margin_top,
            quote_x: clamp_u16(cols - 50, 2),
            quote_y: clamp_u16(nch + 200 * tm + 1000, 200),
        }
    }
}

/// What the solver returns: a zero placement when quotes are off, otherwise
/// the row or column layout of the chosen mode.
pub open spec fn layout_spec(
    terminal: TerminalSize,
    aspect: ImageAspect,
    constraints: SizeConstraints,
    mode: LayoutMode,
    show_quotes: bool,
    quote_line_count: int,
) -> Layout {
    if !show_quotes {
        Layout { image_width: 0, image_x: 0, image_y: 0, quote_x: 0, quote_y: 0 }
    } else {
        match mode {
            LayoutMode::Row => row_layout(terminal, aspect, constraints, false, quote_line_count),
            LayoutMode::RowCentered => row_layout(
                terminal,
                aspect,
                constraints,
                true,
                quote_line_count,
            ),
            LayoutMode::Col => col_layout(terminal, aspect, constraints, false),
            LayoutMode::ColCentered => col_layout(terminal, aspect, constraints, true),
        }
    }
}

/// Multiplying by a positive `b` stays below `a` exactly up to the ceiling
/// quotient of `a` by `b`.
proof fn lemma_mul_lt_iff_ceil(a: int, b: int, k: int)
    requires
        b >= 1,
    ensures
        b * k < a <==> k < ceil_div(a, b),
{
    let q = ceil_div(a, b);
    lemma_fundamental_div_mod(a + b - 1, b);
    lemma_mod_division_less_than_divisor(a + b - 1, b);
    let r = (a + b - 1) % b;
    assert(a + b - 1 == b * q + r);
    if k < q {
        lemma_mul_inequality(k + 1, q, b);
        assert((k + 1) * b <= q * b);
        assert(b * (k + 1) == b * k + b) by (nonlinear_arith);
        assert((k + 1) * b == b * (k + 1)) by (nonlinear_arith);
        assert(q * b == b * q) by (nonlinear_arith);
        assert(b * k <= b * q - b);
        assert(b * q <= a + b - 1);
        assert(b * k < a);
    }
    if k >= q {
        lemma_mul_inequality(q, k, b);
        assert(q * b <= k * b);
        assert(q * b == b * q) by (nonlinear_arith);
        assert(k * b == b * k) by (nonlinear_arith);
        assert(b * q == a + b - 1 - r);
        assert(b * q >= a);
        assert(b * k >= a);
    }
}

/// The product of a positive `b` with the ceiling quotient of `a` by `b`
/// overshoots `a` by less than `b`.
proof fn lemma_ceil_mul_bound(a: int, b: int)
    requires
        b >= 1,
    ensures
        b * ceil_div(a, b) <= a + b - 1,
{
    lemma_fundamental_div_mod(a + b - 1, b);
    lemma_mod_division_less_than_divisor(a + b - 1, b);
}

/// The ceiling quotient of `a` by a positive `b` is at most `a + b - 1` and
/// at most zero when `a + b - 1` is not positive.
proof fn lemma_ceil_upper(a: int, b: int)
    requires
        b >= 1,
    ensures
        ceil_div(a, b) <= spec_max(0, a + b - 1),
{
    if a + b - 1 >= 0 {
        lemma_div_nonincreasing(a + b - 1, b);
    } else {
        lemma_div_is_ordered(a + b - 1, 0, b);
        vstd::arithmetic::div_mod::lemma_div_of0(b);
    }
}

/// Law of row-mode convergence: after `k` shrink steps — each taking one
/// cell of width and two height units — the shrink condition holds exactly
/// when `k` is below `row_steps`.  The shrink therefore runs exactly
/// `row_steps` iterations and stops.
pub proof fn lemma_row_cond_iff(
    terminal: TerminalSize,
    aspect: ImageAspect,
    constraints: SizeConstraints,
    k: int,
)
    requires
        k >= 0,
    ensures
        row_cond(
            terminal,
            aspect,
            constraints,
            row_width_num0(terminal, constraints) - 100 * k,
            row_height_num0(terminal, aspect, constraints) - 200 * aspect.ratio_den() * k,
        ) <==> k < row_steps(terminal, aspect, constraints),
{
    let rd = aspect.ratio_den();
    let ncw0 = row_width_num0(terminal, constraints);
    let nch0 = row_height_num0(terminal, aspect, constraints);
    let tw = row_width_threshold(terminal, constraints);
    let th = row_height_threshold(terminal, aspect, constraints);
    let ncw = ncw0 - 100 * k;
    let nch = nch0 - 200 * rd * k;
    assert(row_cond(terminal, aspect, constraints, ncw, nch) <==> (ncw > tw || nch > th));
    lemma_mul_lt_iff_ceil(ncw0 - tw, 100, k);
    assert(ncw > tw <==> k < ceil_div(ncw0 - tw, 100));
    lemma_mul_lt_iff_ceil(nch0 - th, 200 * rd, k);
    assert(nch > th <==> k < ceil_div(nch0 - th, 200 * rd));
}

/// Law of row-mode termination: however degenerate the inputs, the number of
/// shrink steps is non-negative and bounded, one cell of width and two
/// height units going per step.
pub proof fn lemma_row_steps_bound(
    terminal: TerminalSize,
    aspect: ImageAspect,
    constraints: SizeConstraints,
)
    ensures
        0 <= row_steps(terminal, aspect, constraints),
        100 * row_steps(terminal, aspect, constraints) <= 0x1_0000_0000_0000_0000_0000,
        200 * aspect.ratio_den() * row_steps(terminal, aspect, constraints)
            <= 0x1_0000_0000_0000_0000_0000,
{
    let cols = terminal.columns as int;
    let mwp = constraints.max_width_percent as int;
    let mhp = constraints.max_height_percent as int;
    let lm = constraints.margin_left as int;
    let tm = constraints.margin_top as int;
    let rn = aspect.ratio_num();
    let rd = aspect.ratio_den();
    let h = drawable_height(terminal, constraints);
    let ncw0 = row_width_num0(terminal, constraints);
    let nch0 = row_height_num0(terminal, aspect, constraints);
    let tw = row_width_threshold(terminal, constraints);
    let th = row_height_threshold(terminal, aspect, constraints);
    let cw = ceil_div(ncw0 - tw, 100);
    let ch = ceil_div(nch0 - th, 200 * rd);
    let steps = row_steps(terminal, aspect, constraints);
    assert(0 <= ncw0 <= 0x1_0000_0000) by (nonlinear_arith)
        requires
            ncw0 == cols * mwp,
            0 <= cols <= 0xffff,
            0 <= mwp <= 0xffff,
    ;
    assert(-0x40000 <= h <= 0x40000);
    assert(tw >= -0x1000000);
    lemma_ceil_upper(ncw0 - tw, 100);
    assert(cw <= 0x1_0200_0000);
    assert(0 <= nch0 <= 0x1_0000_0000_0000_0000) by (nonlinear_arith)
        requires
            nch0 == cols * mwp * rn,
            0 <= cols <= 0xffff,
            0 <= mwp <= 0xffff,
            0 <= rn <= 0xffff_ffff,
    ;
    assert(-0x200_0000_0000_0000 <= 100 * rd * h <= 0x200_0000_0000_0000) by (nonlinear_arith)
        requires
            1 <= rd <= 0x1_0000_0000,
            -0x40000 <= h <= 0x40000,
    ;
    assert(-0x8_0000_0000 <= h * mhp - 200 * tm <= 0x8_0000_0000) by (nonlinear_arith)
        requires
            -0x40000 <= h <= 0x40000,
            0 <= mhp <= 0xffff,
            -0x8000 <= tm <= 0x8000,
    ;
    assert(-0x8_0000_0000_0000_0000_0 <= rd * (h * mhp - 200 * tm) <= 0x8_0000_0000_0000_0000_0)
        by (nonlinear_arith)
        requires
            1 <= rd <= 0x1_0000_0000,
            -0x8_0000_0000 <= h * mhp - 200 * tm <= 0x8_0000_0000,
    ;
    assert(th >= -0x8_0000_0000_0000_0000_0);
    assert(1 <= 200 * rd <= 0x200_0000_0000) by (nonlinear_arith)
        requires
            1 <= rd <= 0x1_0000_0000,
    ;
    lemma_ceil_upper(nch0 - th, 200 * rd);
    assert(nch0 - th + 200 * rd - 1 <= 0xA_0000_0000_0000_0000_0);
    assert(ch <= 0xA_0000_0000_0000_0000_0);
    assert(steps <= 0xA_0000_0000_0000_0000_0);
    assert(100 * steps <= 0x1_0000_0000_0000_0000_0000);
    // The doubled-unit decrement: bound its total over all steps.
    if steps == 0 {
        assert(200 * rd * steps == 0) by (nonlinear_arith)
            requires
                steps == 0,
        ;
    } else if steps == cw {
        lemma_mul_inequality(steps, 0x1_0200_0000, 200 * rd);
        assert(steps * (200 * rd) <= 0x1_0200_0000 * (200 * rd));
        lemma_mul_inequality(200 * rd, 0x200_0000_0000, 0x1_0200_0000);
        assert((200 * rd) * 0x1_0200_0000 <= 0x200_0000_0000 * 0x1_0200_0000);
        assert(200 * rd * steps == steps * (200 * rd)) by (nonlinear_arith);
        assert(0x1_0200_0000 * (200 * rd) == (200 * rd) * 0x1_0200_0000) by (nonlinear_arith);
        assert(200 * rd * steps <= 0x1_0000_0000_0000_0000_0000);
    } else {
        assert(steps == ch);
        lemma_ceil_mul_bound(nch0 - th, 200 * rd);
        assert((200 * rd) * ch <= nch0 - th + 200 * rd - 1);
        assert(200 * rd * steps == (200 * rd) * ch) by (nonlinear_arith)
            requires
                steps == ch,
        ;
        assert(200 * rd * steps <= 0x1_0000_0000_0000_0000_0000);
    }
}

/// Law of column-mode convergence: after `k` shrink steps the condition
/// holds exactly when `k` is below `col_steps`, for a non-zero aspect ratio.
pub proof fn lemma_col_cond_iff(
    terminal: TerminalSize,
    aspect: ImageAspect,
    constraints: SizeConstraints,
    k: int,
)
    requires
        k >= 0,
        aspect.ratio_num() >= 1,
    ensures
        col_cond(
            terminal,
            aspect,
            constraints,
            col_height_num0(terminal, constraints) * aspect.ratio_den() - 100 * aspect.ratio_num()
                * k,
        ) <==> k < col_steps(terminal, aspect, constraints),
{
    let cols = terminal.columns as int;
    let mwp = constraints.max_width_percent as int;
    let rn = aspect.ratio_num();
    let rd = aspect.ratio_den();
    let ncw0 = col_height_num0(terminal, constraints) * rd;
    let t = spec_min(100 * rn * cols, rn * cols * mwp);
    let ncw = ncw0 - 100 * rn * k;
    assert(col_cond(terminal, aspect, constraints, ncw) <==> ncw > t);
    assert(100 * rn >= 1) by (nonlinear_arith)
        requires
            rn >= 1,
    ;
    lemma_mul_lt_iff_ceil(ncw0 - t, 100 * rn, k);
    assert(ncw > t <==> k < ceil_div(ncw0 - t, 100 * rn));
}

/// Law of column-mode termination: the number of shrink steps is
/// non-negative and bounded, for a non-zero aspect ratio.
pub proof fn lemma_col_steps_bound(
    terminal: TerminalSize,
    aspect: ImageAspect,
    constraints: SizeConstraints,
)
    requires
        aspect.ratio_num() >= 1,
    ensures
        0 <= col_steps(terminal, aspect, constraints),
        col_steps(terminal, aspect, constraints) <= 0x100_0000_0000_0000_0000,
        100 * aspect.ratio_num() * col_steps(terminal, aspect, constraints)
            <= 0x1_0000_0000_0000_0000_0000,
{
    let cols = terminal.columns as int;
    let mwp = constraints.max_width_percent as int;
    let mhp = constraints.max_height_percent as int;
    let rn = aspect.ratio_num();
    let rd = aspect.ratio_den();
    let h = drawable_height(terminal, constraints);
    let ncw0 = col_height_num0(terminal, constraints) * rd;
    let t = spec_min(100 * rn * cols, rn * cols * mwp);
    let b = 100 * rn;
    let c = ceil_div(ncw0 - t, b);
    let steps = col_steps(terminal, aspect, constraints);
    assert(-0x40000 <= h <= 0x40000);
    assert(-0x4_0000_0000 <= col_height_num0(terminal, constraints) <= 0x4_0000_0000)
        by (nonlinear_arith)
        requires
            col_height_num0(terminal, constraints) == h * mhp,
            -0x40000 <= h <= 0x40000,
            0 <= mhp <= 0xffff,
    ;
    assert(-0x4_0000_0000_0000_0000_0 <= ncw0 <= 0x4_0000_0000_0000_0000_0) by (nonlinear_arith)
        requires
            ncw0 == col_height_num0(terminal, constraints) * rd,
            -0x4_0000_0000 <= col_height_num0(terminal, constraints) <= 0x4_0000_0000,
            1 <= rd <= 0x1_0000_0000,
    ;
    assert(-0x1_0000_0000_0000_0000 <= 100 * rn * cols <= 0x1_0000_0000_0000_0000)
        by (nonlinear_arith)
        requires
            1 <= rn <= 0x1_0000_0000,
            0 <= cols <= 0xffff,
    ;
    assert(-0x1_0000_0000_0000_0000 <= rn * cols * mwp <= 0x1_0000_0000_0000_0000)
        by (nonlinear_arith)
        requires
            1 <= rn <= 0x1_0000_0000,
            0 <= cols <= 0xffff,
            0 <= mwp <= 0xffff,
    ;
    assert(1 <= b <= 0x64_0000_0000) by (nonlinear_arith)
        requires
            1 <= rn <= 0x1_0000_0000,
            b == 100 * rn,
    ;
    lemma_ceil_upper(ncw0 - t, b);
    assert(ncw0 - t + b - 1 <= 0x6_0000_0000_0000_0000_0);
    assert(c <= 0x6_0000_0000_0000_0000_0);
    assert(steps <= 0x100_0000_0000_0000_0000);
    if steps == 0 {
        assert(b * steps == 0) by (nonlinear_arith)
            requires
                steps == 0,
        ;
    } else {
        assert(steps == c);
        lemma_ceil_mul_bound(ncw0 - t, b);
        assert(b * c <= ncw0 - t + b - 1);
        assert(100 * rn * steps == b * c) by (nonlinear_arith)
            requires
                steps == c,
                b == 100 * rn,
        ;
        assert(100 * rn * steps <= 0x1_0000_0000_0000_0000_0000);
    }
}

/// Law of the disabled-quotes mode: when quotes are off the solver reports
/// nothing to place — a zero-sized image at the origin and a zero quote
/// anchor — whatever the other inputs are.
pub proof fn lemma_quotes_disabled_zero(
    terminal: TerminalSize,
    aspect: ImageAspect,
    constraints: SizeConstraints,
    mode: LayoutMode,
    quote_line_count: int,
)
    ensures
        layout_spec(terminal, aspect, constraints, mode, false, quote_line_count) == (Layout {
            image_width: 0,
            image_x: 0,
            image_y: 0,
            quote_x: 0,
            quote_y: 0,
        }),
{
}

/// Law of truncation: a fractional coordinate is cut toward zero, never
/// rounded up — the clamped cell index `r` satisfies
/// `den * r <= num < den * (r + 1)` whenever the fraction is non-negative
/// and in range, so a coordinate of 7.9 renders as cell 7.
pub proof fn lemma_clamp_u16_truncates(num: int, den: int)
    requires
        den >= 1,
        num >= 0,
        num / den <= 0xffff,
    ensures
        den * clamp_u16(num, den) <= num < den * (clamp_u16(num, den) + 1),
{
    lemma_fundamental_div_mod(num, den);
    lemma_mod_division_less_than_divisor(num, den);
    lemma_div_pos_is_pos(num, den);
    let q = num / den;
    assert(den * (q + 1) == den * q + den) by (nonlinear_arith);
}

/// Truncates `num / den` toward zero and clamps it to `u16`.
fn clamp_u16_exec(num: i128, den: i128) -> (r: u16)
    requires
        1 <= den,
    ensures
        r == clamp_u16(num as int, den as int),
{
    if num <= 0 {
        0u16
    } else {
        proof {
            lemma_div_pos_is_pos(num as int, den as int);
        }
        let q = (num as u128) / (den as u128);
        if q > 0xffff {
            0xffff
        } else {
            q as u16
        }
    }
}

/// Truncates `num / den` toward zero and clamps it to `u32`.
fn clamp_u32_exec(num: i128, den: i128) -> (r: u32)
    requires
        1 <= den,
    ensures
        r == clamp_u32(num as int, den as int),
{
    if num <= 0 {
        0u32
    } else {
        proof {
            lemma_div_pos_is_pos(num as int, den as int);
        }
        let q = (num as u128) / (den as u128);
        if q > 0xffff_ffff {
            0xffff_ffff
        } else {
            q as u32
        }
    }
}

/// Computes where the image and the quote box go.  When quotes are off the
/// placement is all zero.  Otherwise the image starts at its percentage
/// boundary and shrinks — one cell of width and two height units per step —
/// until everything fits, exactly as `layout_spec` states; the coordinates
/// are then derived from the converged width.  Degenerate inputs (a zero
/// terminal, an unknown image) yield a degenerate but defined placement.
#[verifier::loop_isolation(false)]
pub fn calculate_image_layout(
    terminal: TerminalSize,
    aspect: ImageAspect,
    constraints: SizeConstraints,
    mode: LayoutMode,
    show_quotes: bool,
    quote_line_count: u16,
) -> (layout: Layout)
    ensures
        layout == layout_spec(
            terminal,
            aspect,
            constraints,
            mode,
            show_quotes,
            quote_line_count as int,
        ),
{
    if !show_quotes {
        return Layout { image_width: 0, image_x: 0, image_y: 0, quote_x: 0, quote_y: 0 };
    }
    let cols: i128 = terminal.columns as i128;
    let rows: i128 = terminal.rows as i128;
    let mwp: i128 = constraints.max_width_percent as i128;
    let mhp: i128 = constraints.max_height_percent as i128;
    let lm: i128 = constraints.margin_left as i128;
    let tm: i128 = constraints.margin_top as i128;
    let rn: i128 = if aspect.pixel_width == 0 {
        0
    } else {
        aspect.pixel_height as i128
    };
    let rd: i128 = if aspect.pixel_width == 0 {
        1
    } else {
        aspect.pixel_width as i128
    };
    let qlc: i128 = quote_line_count as i128;
    let h: i128 = (rows - 16 - tm) * 2;
    proof {
        assert(rn == aspect.ratio_num());
        assert(rd == aspect.ratio_den());
        assert(h == drawable_height(terminal, constraints));
        assert(-0x40000 <= h <= 0x40000);
    }
    if mode == LayoutMode::Row || mode == LayoutMode::RowCentered {
        let centered = mode == LayoutMode::RowCentered;
        proof {
            assert(0 <= cols * mwp <= 0x1_0000_0000) by (nonlinear_arith)
                requires
                    0 <= cols <= 0xffff,
                    0 <= mwp <= 0xffff,
            ;
        }
        let mut ncw: i128 = cols * mwp;
        proof {
            assert(0 <= ncw * rn <= 0x1_0000_0000_0000_0000) by (nonlinear_arith)
                requires
                    0 <= ncw <= 0x1_0000_0000,
                    0 <= rn <= 0xffff_ffff,
            ;
        }
        let mut nch: i128 = ncw * rn;
        proof {
            assert(-0x200_0000_0000_0000 <= 100 * rd * h <= 0x200_0000_0000_0000)
                by (nonlinear_arith)
                requires
                    1 <= rd <= 0x1_0000_0000,
                    -0x40000 <= h <= 0x40000,
            ;
            assert(-0x8_0000_0000 <= h * mhp - 200 * tm <= 0x8_0000_0000) by (nonlinear_arith)
                requires
                    -0x40000 <= h <= 0x40000,
                    0 <= mhp <= 0xffff,
                    -0x8000 <= tm <= 0x8000,
            ;
            assert(-0x8_0000_0000_0000_0000_0 <= rd * (h * mhp - 200 * tm)
                <= 0x8_0000_0000_0000_0000_0) by (nonlinear_arith)
                requires
                    1 <= rd <= 0x1_0000_0000,
                    -0x8_0000_0000 <= h * mhp - 200 * tm <= 0x8_0000_0000,
            ;
        }
        let tb: i128 = 100 * rd * h;
        let tc: i128 = rd * (h * mhp - 200 * tm);
        let ghost steps = row_steps(terminal, aspect, constraints);
        let ghost mut k: int = 0;
        proof {
            lemma_row_steps_bound(terminal, aspect, constraints);
        }
        while 100 * cols - ncw < 5000 || nch > tb || nch > tc || 100 * cols < ncw + 5500 + 200 * lm
            invariant
                0 <= k <= steps,
                ncw == row_width_num0(terminal, constraints) - 100 * k,
                nch == row_height_num0(terminal, aspect, constraints) - 200 * aspect.ratio_den()
                    * k,
            decreases steps - k,
        {
            proof {
                lemma_row_cond_iff(terminal, aspect, constraints, k);
                assert(k < steps);
                lemma_mul_inequality(k + 1, steps, 200 * rd as int);
                assert(200 * aspect.ratio_den() * (k + 1) == (k + 1) * (200 * rd as int))
                    by (nonlinear_arith)
                    requires
                        rd == aspect.ratio_den(),
                ;
                assert(200 * aspect.ratio_den() * steps == steps * (200 * rd as int))
                    by (nonlinear_arith)
                    requires
                        rd == aspect.ratio_den(),
                ;
                assert(200 * aspect.ratio_den() * (k + 1) <= 200 * aspect.ratio_den() * steps);
                assert(200 * aspect.ratio_den() * k == 200 * aspect.ratio_den() * (k + 1) - 200
                    * aspect.ratio_den() * 1) by (nonlinear_arith);
            }
            ncw = ncw - 100;
            nch = nch - 200 * rd;
            proof {
                k = k + 1;
            }
        }
        proof {
            lemma_row_cond_iff(terminal, aspect, constraints, k);
            assert(k == steps);
            assert(-0x1_0000_0000_0000_0000_0000_0000_0000 <= ncw * rn
                <= 0x1_0000_0000_0000_0000_0000_0000_0000) by (nonlinear_arith)
                requires
                    -0x1_0000_0000_0000_0000_0000 <= ncw <= 0x1_0000_0000,
                    0 <= rn <= 0xffff_ffff,
            ;
            assert(-0x1_0000_0000_0000_0000 <= 300 * rd * tm <= 0x1_0000_0000_0000_0000)
                by (nonlinear_arith)
                requires
                    1 <= rd <= 0x1_0000_0000,
                    -0x8000 <= tm <= 0x8000,
            ;
            assert(0 <= 200 * rd * qlc <= 0x1_0000_0000_0000_0000) by (nonlinear_arith)
                requires
                    1 <= rd <= 0x1_0000_0000,
                    0 <= qlc <= 0xffff,
            ;
        }
        let width = clamp_u32_exec(ncw, 100);
        let image_x: u16 = if centered {
            clamp_u16_exec(100 * cols - ncw - 5500, 200)
        } else {
            constraints.margin_left
        };
        let quote_x: u16 = if centered {
            clamp_u16_exec(ncw + 100 * cols - 4500, 200)
        } else {
            clamp_u16_exec(ncw + 100 * lm + 500, 100)
        };
        let quote_y: u16 = clamp_u16_exec(ncw * rn + 300 * rd * tm - 200 * rd * qlc, 400 * rd);
        Layout {
            image_width: width,
            image_x,
            image_y: constraints.margin_top,
            quote_x,
            quote_y,
        }
    } else {
        let centered = mode == LayoutMode::ColCentered;
        proof {
            assert(-0x4_0000_0000 <= h * mhp <= 0x4_0000_0000) by (nonlinear_arith)
                requires
                    -0x40000 <= h <= 0x40000,
                    0 <= mhp <= 0xffff,
            ;
        }
        let hm: i128 = h * mhp;
        if rn == 0 {
            let image_x: u16 = if centered {
                clamp_u16_exec(cols, 2)
            } else {
                constraints.margin_left
            };
            let quote_x: u16 = clamp_u16_exec(cols - 50, 2);
            let quote_y: u16 = clamp_u16_exec(hm + 200 * tm + 1000, 200);
            Layout {
                image_width: 0,
                image_x,
                image_y: constraints.margin_top,
                quote_x,
                quote_y,
            }
        } else {
            proof {
                assert(-0x4_0000_0000_0000_0000_0 <= hm * rd <= 0x4_0000_0000_0000_0000_0)
                    by (nonlinear_arith)
                    requires
                        -0x4_0000_0000 <= hm <= 0x4_0000_0000,
                        1 <= rd <= 0x1_0000_0000,
                ;
                assert(0 <= 100 * rn * cols <= 0x1_0000_0000_0000_0000) by (nonlinear_arith)
                    requires
                        1 <= rn <= 0x1_0000_0000,
                        0 <= cols <= 0xffff,
                ;
                assert(0 <= rn * cols <= 0x1_0000_0000_0000) by (nonlinear_arith)
                    requires
                        1 <= rn <= 0x1_0000_0000,
                        0 <= cols <= 0xffff,
                ;
                assert(0 <= rn * cols * mwp <= 0x1_0000_0000_0000_0000) by (nonlinear_arith)
                    requires
                        0 <= rn * cols <= 0x1_0000_0000_0000,
                        0 <= mwp <= 0xffff,
                ;
            }
            let mut ncw: i128 = hm * rd;
            let mut nch: i128 = hm;
            let t1: i128 = 100 * rn * cols;
            let t2: i128 = rn * cols * mwp;
            let ghost steps = col_steps(terminal, aspect, constraints);
            let ghost mut k: int = 0;
            proof {
                lemma_col_steps_bound(terminal, aspect, constraints);
            }
            while ncw > t1 || ncw > t2
                invariant
                    0 <= k <= steps,
                    ncw == col_height_num0(terminal, constraints) * aspect.ratio_den() - 100
                        * aspect.ratio_num() * k,
                    nch == col_height_num0(terminal, constraints) - 200 * k,
                decreases steps - k,
            {
                proof {
                    lemma_col_cond_iff(terminal, aspect, constraints, k);
                    assert(k < steps);
                    lemma_mul_inequality(k + 1, steps, 100 * rn as int);
                    assert(100 * aspect.ratio_num() * (k + 1) == (k + 1) * (100 * rn as int))
                        by (nonlinear_arith)
                        requires
                            rn == aspect.ratio_num(),
                    ;
                    assert(100 * aspect.ratio_num() * steps == steps * (100 * rn as int))
                        by (nonlinear_arith)
                        requires
                            rn == aspect.ratio_num(),
                    ;
                    assert(100 * aspect.ratio_num() * (k + 1) <= 100 * aspect.ratio_num() * steps);
                    assert(100 * aspect.ratio_num() * k == 100 * aspect.ratio_num() * (k + 1) - 100
                        * aspect.ratio_num() * 1) by (nonlinear_arith);
                }
                ncw = ncw - 100 * rn;
                nch = nch - 200;
                proof {
                    k = k + 1;
                }
            }
            proof {
                lemma_col_cond_iff(terminal, aspect, constraints, k);
                assert(k == steps);
                assert(-0x1_0000_0000_0000_0000_0000_0000_0000 <= nch * rd
                    <= 0x1_0000_0000_0000_0000_0000_0000_0000) by (nonlinear_arith)
                    requires
                        -0x1_0000_0000_0000_0000_0000 <= nch <= 0x4_0000_0000,
                        1 <= rd <= 0x1_0000_0000,
                ;
            }
            let width = clamp_u32_exec(nch * rd, 100 * rn);
            let image_x: u16 = if centered {
                clamp_u16_exec(100 * rn * cols - nch * rd, 200 * rn)
            } else {
                constraints.margin_left
            };
            let quote_x: u16 = clamp_u16_exec(cols - 50, 2);
            let quote_y: u16 = clamp_u16_exec(nch + 200 * tm + 1000, 200);
            Layout {
                image_width: width,
                image_x,
                image_y: constraints.margin_top,
                quote_x,
                quote_y,
            }
        }
    }
}

} // verus!
