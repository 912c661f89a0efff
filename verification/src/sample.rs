use vstd::prelude::*;

use vstd::arithmetic::div_mod::{lemma_div_multiples_vanish, lemma_multiply_divide_le};
use vstd::arithmetic::div_mod::lemma_div_pos_is_pos;
use crate::grid::PixelGrid;

verus! {

/// Sum of the intensities of rows `y0 .. y0 + h` of column `x`.
pub open spec fn col_sum(g: PixelGrid, x: int, y0: int, h: int) -> int
    decreases h,
{
    if h <= 0 {
        0
    } else {
        col_sum(g, x, y0, h - 1) + g.pix(x, y0 + h - 1)
    }
}

/// Sum of the intensities of the rectangle `[x0, x0 + w) x [y0, y0 + h)`.
pub open spec fn rect_sum(g: PixelGrid, x0: int, y0: int, w: int, h: int) -> int
    decreases w,
{
    if w <= 0 {
        0
    } else {
        rect_sum(g, x0, y0, w - 1, h) + col_sum(g, x0 + w - 1, y0, h)
    }
}

/// The truncated integer mean of the intensities of the rectangle
/// `[x0, x0 + w) x [y0, y0 + h)`.
pub open spec fn rect_avg(g: PixelGrid, x0: int, y0: int, w: int, h: int) -> int {
    rect_sum(g, x0, y0, w, h) / (w * h)
}

pub proof fn lemma_col_sum_bounds(g: PixelGrid, x: int, y0: int, h: int)
    requires
        h >= 0,
    ensures
        0 <= col_sum(g, x, y0, h) <= 255 * h,
    decreases h,
{
    if h > 0 {
        lemma_col_sum_bounds(g, x, y0, h - 1);
    }
}

pub proof fn lemma_rect_sum_bounds(g: PixelGrid, x0: int, y0: int, w: int, h: int)
    requires
        w >= 0,
        h >= 0,
    ensures
        0 <= rect_sum(g, x0, y0, w, h) <= 255 * (w * h),
    decreases w,
{
    if w > 0 {
        lemma_rect_sum_bounds(g, x0, y0, w - 1, h);
        lemma_col_sum_bounds(g, x0 + w - 1, y0, h);
        assert(255 * ((w - 1) * h) + 255 * h == 255 * (w * h)) by (nonlinear_arith);
    }
}

/// On a rectangle whose every pixel holds intensity `v`, the column sums are
/// `h * v`.
pub proof fn lemma_col_sum_uniform(g: PixelGrid, x: int, y0: int, h: int, v: u8)
    requires
        h >= 0,
        forall|y: int| y0 <= y < y0 + h ==> g.pix(x, y) == v,
    ensures
        col_sum(g, x, y0, h) == h * v,
    decreases h,
{
    if h > 0 {
        lemma_col_sum_uniform(g, x, y0, h - 1, v);
        assert((h - 1) * v + v == h * v) by (nonlinear_arith);
    } else {
        assert(h * v == 0) by (nonlinear_arith)
            requires
                h == 0,
        ;
    }
}

/// On a rectangle whose every pixel holds intensity `v`, the rectangle sum is
/// `w * h * v`.
pub proof fn lemma_rect_sum_uniform(g: PixelGrid, x0: int, y0: int, w: int, h: int, v: u8)
    requires
        w >= 0,
        h >= 0,
        forall|x: int, y: int| x0 <= x < x0 + w && y0 <= y < y0 + h ==> g.pix(x, y) == v,
    ensures
        rect_sum(g, x0, y0, w, h) == (w * h) * v,
    decreases w,
{
    if w > 0 {
        lemma_rect_sum_uniform(g, x0, y0, w - 1, h, v);
        lemma_col_sum_uniform(g, x0 + w - 1, y0, h, v);
        assert(((w - 1) * h) * v + h * v == (w * h) * v) by (nonlinear_arith);
    } else {
        assert((w * h) * v == 0) by (nonlinear_arith)
            requires
                w == 0,
        ;
    }
}

/// On a uniform rectangle the truncated mean is the uniform intensity itself.
pub proof fn lemma_rect_avg_uniform(g: PixelGrid, x0: int, y0: int, w: int, h: int, v: u8)
    requires
        w >= 1,
        h >= 1,
        forall|x: int, y: int| x0 <= x < x0 + w && y0 <= y < y0 + h ==> g.pix(x, y) == v,
    ensures
        rect_avg(g, x0, y0, w, h) == v,
{
    lemma_rect_sum_uniform(g, x0, y0, w, h, v);
    assert(w * h >= 1) by (nonlinear_arith)
        requires
            w >= 1,
            h >= 1,
    ;
    assert(((w * h) * (v as int)) / (w * h) == v) by {
        lemma_div_multiples_vanish(v as int, w * h);
    }
}

/// The truncated mean of a rectangle of intensities stays in `[0, 255]`.
pub proof fn lemma_rect_avg_range(g: PixelGrid, x0: int, y0: int, w: int, h: int)
    requires
        w >= 1,
        h >= 1,
    ensures
        0 <= rect_avg(g, x0, y0, w, h) <= 255,
{
    lemma_rect_sum_bounds(g, x0, y0, w, h);
    assert(w * h >= 1) by (nonlinear_arith)
        requires
            w >= 1,
            h >= 1,
    ;
    lemma_div_pos_is_pos(rect_sum(g, x0, y0, w, h), w * h);
    assert(255 * (w * h) == (w * h) * 255) by (nonlinear_arith);
    lemma_multiply_divide_le(rect_sum(g, x0, y0, w, h), w * h, 255);
}

/// The Cell Sampler: the truncated integer mean of the intensities of the
/// source rectangle with top-left `corner` and size `dimensions`, every pixel
/// visited exactly once with equal weight.
pub fn avg_value(img: &PixelGrid, corner: (u32, u32), dimensions: (u32, u32)) -> (avg: u8)
    requires
        img.wf(),
        dimensions.0 >= 1,
        dimensions.1 >= 1,
        corner.0 + dimensions.0 <= img.spec_width(),
        corner.1 + dimensions.1 <= img.spec_height(),
    ensures
        avg == rect_avg(
            *img,
            corner.0 as int,
            corner.1 as int,
            dimensions.0 as int,
            dimensions.1 as int,
        ),
{
    let (x0, y0) = corner;
    let (w, h) = dimensions;
    proof {
        assert((w as int) * (h as int) <= img.spec_width() * img.spec_height())
            by (nonlinear_arith)
            requires
                1 <= w <= img.spec_width(),
                1 <= h <= img.spec_height(),
        ;
    }
    let mut sum: u64 = 0;
    let mut x: u32 = 0;
    while x < w
        invariant
            img.wf(),
            w >= 1,
            h >= 1,
            x0 + w <= img.spec_width(),
            y0 + h <= img.spec_height(),
            0 <= x <= w,
            (w as int) * (h as int) <= u32::MAX,
            sum == rect_sum(*img, x0 as int, y0 as int, x as int, h as int),
            sum <= 255 * ((x as int) * (h as int)),
        decreases w - x,
    {
        let mut y: u32 = 0;
        let ghost sum_before_col = sum as int;
        while y < h
            invariant
                img.wf(),
                w >= 1,
                h >= 1,
                x0 + w <= img.spec_width(),
                y0 + h <= img.spec_height(),
                0 <= x < w,
                0 <= y <= h,
                (w as int) * (h as int) <= u32::MAX,
                sum_before_col == rect_sum(*img, x0 as int, y0 as int, x as int, h as int),
                sum_before_col <= 255 * ((x as int) * (h as int)),
                sum == sum_before_col + col_sum(*img, x0 + x as int, y0 as int, y as int),
            decreases h - y,
        {
            proof {
                lemma_col_sum_bounds(*img, x0 + x as int, y0 as int, y as int);
                assert(255 * ((x as int) * (h as int)) + 255 * (h as int)
                    <= 255 * ((w as int) * (h as int)) <= 255 * (u32::MAX as int))
                    by (nonlinear_arith)
                    requires
                        0 <= x < w,
                        h >= 1,
                        (w as int) * (h as int) <= u32::MAX,
                ;
            }
            sum = sum + (img.pixel(x0 + x, y0 + y) as u64);
            y = y + 1;
        }
        proof {
            assert(rect_sum(*img, x0 as int, y0 as int, x as int + 1, h as int)
                == sum_before_col + col_sum(*img, x0 + x as int, y0 as int, h as int));
            lemma_col_sum_bounds(*img, x0 + x as int, y0 as int, h as int);
            assert(255 * ((x as int) * (h as int)) + 255 * (h as int)
                == 255 * ((x as int + 1) * (h as int))) by (nonlinear_arith);
        }
        x = x + 1;
    }
    let area: u64 = (w as u64) * (h as u64);
    proof {
        assert(area >= 1) by (nonlinear_arith)
            requires
                area == (w as int) * (h as int),
                w >= 1,
                h >= 1,
        ;
        lemma_rect_avg_range(*img, x0 as int, y0 as int, w as int, h as int);
        lemma_div_pos_is_pos(sum as int, area as int);
    }
    (sum / area) as u8
}

} // verus!
