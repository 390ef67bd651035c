//! The assembler: the grid of grey levels, one per pixel.

use crate::escape::{
    escapes_after, is_deterministic, is_total, lemma_count_unique, mandelbrot, Recurrence,
};
use vstd::prelude::*;

verus! {

/// Why a grid of the requested dimensions is not rendered.
///
/// A mapper places pixel `px` of a row of `w` pixels at the fraction
/// `px / (w - 1)` of the viewport, and likewise along the other axis, so a
/// width or a height of exactly one leaves it nothing to divide by.
#[derive(Debug, Clone, Copy, PartialEq, Eq, Structural)]
pub enum RenderError {
    /// The width is one.
    DegenerateWidth,
    /// The width is acceptable and the height is one.
    DegenerateHeight,
}

/// The error that the dimensions `w` by `h` are rejected with, if any.
pub open spec fn rejection(w: usize, h: usize) -> Option<RenderError> {
    if w == 1 {
        Some(RenderError::DegenerateWidth)
    } else if h == 1 {
        Some(RenderError::DegenerateHeight)
    } else {
        None
    }
}

/// Whether pixel (`px`, `py`) lies in a grid of `w` by `h` pixels on which a
/// mapper is defined: both dimensions are at least two and the pixel is
/// inside them.
pub open spec fn in_grid(px: usize, py: usize, w: usize, h: usize) -> bool {
    2 <= w && 2 <= h && px < w && py < h
}

/// The grey level that stands for an iteration count: the count modulo 256.
pub open spec fn intensity_of(count: u32) -> u8 {
    (count % 256) as u8
}

/// Whether `level` is a grey level of pixel (`px`, `py`): the level of an
/// iteration count of a point that the mapper gives for the pixel.
pub open spec fn is_level_at<C, Z, M: Fn(usize, usize, usize, usize) -> C, S: Fn(Z, C) -> Z, B: Fn(
    Z,
) -> bool>(
    mapper: M,
    recurrence: Recurrence<Z, S, B>,
    px: usize,
    py: usize,
    w: usize,
    h: usize,
    max_iter: u32,
    level: u8,
) -> bool {
    exists|c: C, count: u32|
        {
            &&& mapper.ensures((px, py, w, h), c)
            &&& #[trigger] escapes_after(recurrence, c, max_iter, count)
            &&& level == intensity_of(count)
        }
}

/// Whether `row` is row `y` of the image: it has `w` entries, and entry `x`
/// is a grey level of pixel (`x`, `y`).
pub open spec fn is_row<C, Z, M: Fn(usize, usize, usize, usize) -> C, S: Fn(Z, C) -> Z, B: Fn(
    Z,
) -> bool>(
    mapper: M,
    recurrence: Recurrence<Z, S, B>,
    y: usize,
    w: usize,
    h: usize,
    max_iter: u32,
    row: Seq<u8>,
) -> bool {
    &&& row.len() == w
    &&& forall|x: int|
        0 <= x < w ==> is_level_at(
            mapper,
            recurrence,
            x as usize,
            y,
            w,
            h,
            max_iter,
            #[trigger] row[x],
        )
}

/// Whether `grid` is the image of `w` by `h` pixels: it has `h` rows, top to
/// bottom, and row `y` is row `y` of the image, left to right.
pub open spec fn is_image<C, Z, M: Fn(usize, usize, usize, usize) -> C, S: Fn(Z, C) -> Z, B: Fn(
    Z,
) -> bool>(
    mapper: M,
    recurrence: Recurrence<Z, S, B>,
    w: usize,
    h: usize,
    max_iter: u32,
    grid: Seq<Seq<u8>>,
) -> bool {
    &&& grid.len() == h
    &&& forall|y: int|
        0 <= y < h ==> is_row(mapper, recurrence, y as usize, w, h, max_iter, #[trigger] grid[y])
}

/// The rows of an image as sequences of grey levels.
pub open spec fn rows_of(image: Seq<Vec<u8>>) -> Seq<Seq<u8>> {
    Seq::new(image.len(), |y: int| image[y]@)
}

/// Whether the mapper is a function of its arguments: no call of it has two
/// possible results.
pub open spec fn is_function<C, M: Fn(usize, usize, usize, usize) -> C>(mapper: M) -> bool {
    forall|px: usize, py: usize, w: usize, h: usize, a: C, b: C|
        #[trigger] mapper.ensures((px, py, w, h), a) && #[trigger] mapper.ensures(
            (px, py, w, h),
            b,
        ) ==> a == b
}

/// Tells whether a grid of `w` by `h` pixels can be rendered, and if not, why.
pub fn check_dimensions(w: usize, h: usize) -> (verdict: Result<(), RenderError>)
    ensures
        verdict == match rejection(w, h) {
            Some(e) => Err::<(), RenderError>(e),
            None => Ok(()),
        },
{
    if w == 1 {
        Err(RenderError::DegenerateWidth)
    } else if h == 1 {
        Err(RenderError::DegenerateHeight)
    } else {
        Ok(())
    }
}

/// Maps an iteration count to its grey level.
pub fn intensity(count: u32) -> (level: u8)
    ensures
        level == intensity_of(count),
{
    (count % 256) as u8
}

/// Computes row `y` of the image of `w` by `h` pixels, left to right: each
/// pixel is mapped to its point, the point's iterations are counted up to
/// `maxIter`, and the count is reduced to a grey level.
///
/// Dimensions that `rejection` names are refused with that error, before the
/// mapper is called at all.
#[allow(non_snake_case)]
pub fn computeRow<C: Copy, Z: Copy, M: Fn(usize, usize, usize, usize) -> C, S: Fn(Z, C) -> Z, B: Fn(
    Z,
) -> bool>(
    y: usize,
    w: usize,
    h: usize,
    maxIter: u32,
    mapper: &M,
    recurrence: &Recurrence<Z, S, B>,
) -> (row: Result<Vec<u8>, RenderError>)
    requires
        y < h,
        forall|px: usize| in_grid(px, y, w, h) ==> #[trigger] mapper.requires((px, y, w, h)),
        is_total::<C, Z, S, B>(*recurrence),
    ensures
        match rejection(w, h) {
            Some(e) => row == Err::<Vec<u8>, RenderError>(e),
            None => row is Ok && is_row(*mapper, *recurrence, y, w, h, maxIter, row->Ok_0@),
        },
        row matches Ok(levels) ==> levels@.len() == w,
{
    if let Err(e) = check_dimensions(w, h) {
        return Err(e);
    }
    let mut row: Vec<u8> = Vec::new();
    let mut x: usize = 0;
    while x < w
        invariant
            x <= w,
            y < h,
            w != 1,
            h != 1,
            forall|px: usize| in_grid(px, y, w, h) ==> #[trigger] mapper.requires((px, y, w, h)),
            is_total::<C, Z, S, B>(*recurrence),
            row@.len() == x,
            forall|i: int|
                0 <= i < x ==> is_level_at(
                    *mapper,
                    *recurrence,
                    i as usize,
                    y,
                    w,
                    h,
                    maxIter,
                    #[trigger] row@[i],
                ),
        decreases w - x,
    {
        let c: C = mapper(x, y, w, h);
        let iter: u32 = mandelbrot(c, maxIter, recurrence);
        row.push(intensity(iter));
        x = x + 1;
    }
    Ok(row)
}

/// Computes the image of `w` by `h` pixels, row by row from the top.
///
/// Dimensions that `rejection` names are refused with that error, before the
/// mapper is called at all; a width or a height of zero gives an image
/// without pixels.
#[allow(non_snake_case)]
pub fn mandelDumb<C: Copy, Z: Copy, M: Fn(usize, usize, usize, usize) -> C, S: Fn(Z, C) -> Z, B: Fn(
    Z,
) -> bool>(
    w: usize,
    h: usize,
    maxIter: u32,
    mapper: &M,
    recurrence: &Recurrence<Z, S, B>,
) -> (image: Result<Vec<Vec<u8>>, RenderError>)
    requires
        forall|px: usize, py: usize|
            in_grid(px, py, w, h) ==> #[trigger] mapper.requires((px, py, w, h)),
        is_total::<C, Z, S, B>(*recurrence),
    ensures
        match rejection(w, h) {
            Some(e) => image == Err::<Vec<Vec<u8>>, RenderError>(e),
            None => image is Ok && is_image(
                *mapper,
                *recurrence,
                w,
                h,
                maxIter,
                rows_of(image->Ok_0@),
            ),
        },
        image matches Ok(rows) ==> rows@.len() == h && forall|y: int|
            0 <= y < h ==> (#[trigger] rows@[y])@.len() == w,
{
    if let Err(e) = check_dimensions(w, h) {
        return Err(e);
    }
    let mut image: Vec<Vec<u8>> = Vec::new();
    let mut y: usize = 0;
    while y < h
        invariant
            y <= h,
            rejection(w, h) is None,
            forall|px: usize, py: usize|
                in_grid(px, py, w, h) ==> #[trigger] mapper.requires((px, py, w, h)),
            is_total::<C, Z, S, B>(*recurrence),
            image@.len() == y,
            forall|j: int|
                0 <= j < y ==> is_row(
                    *mapper,
                    *recurrence,
                    j as usize,
                    w,
                    h,
                    maxIter,
                    (#[trigger] image@[j])@,
                ),
        decreases h - y,
    {
        match computeRow(y, w, h, maxIter, mapper, recurrence) {
            Ok(row) => {
                image.push(row);
            },
            Err(e) => {
                return Err(e);
            },
        }
        y = y + 1;
    }
    Ok(image)
}

/// Under a mapper and a recurrence that are functions of their arguments, a
/// pixel has exactly one grey level.
pub proof fn lemma_level_unique<
    C,
    Z,
    M: Fn(usize, usize, usize, usize) -> C,
    S: Fn(Z, C) -> Z,
    B: Fn(Z) -> bool,
>(
    mapper: M,
    recurrence: Recurrence<Z, S, B>,
    px: usize,
    py: usize,
    w: usize,
    h: usize,
    max_iter: u32,
    first: u8,
    second: u8,
)
    requires
        is_function(mapper),
        is_deterministic::<C, Z, S, B>(recurrence),
        is_level_at(mapper, recurrence, px, py, w, h, max_iter, first),
        is_level_at(mapper, recurrence, px, py, w, h, max_iter, second),
    ensures
        first == second,
{
    let (c1, n1) = choose|c: C, count: u32|
        {
            &&& mapper.ensures((px, py, w, h), c)
            &&& #[trigger] escapes_after(recurrence, c, max_iter, count)
            &&& first == intensity_of(count)
        };
    let (c2, n2) = choose|c: C, count: u32|
        {
            &&& mapper.ensures((px, py, w, h), c)
            &&& #[trigger] escapes_after(recurrence, c, max_iter, count)
            &&& second == intensity_of(count)
        };
    lemma_count_unique(recurrence, c1, max_iter, n1, n2);
}

/// Rendering is deterministic: under a mapper and a recurrence that are
/// functions of their arguments, the dimensions and the cap have exactly one
/// image, so rendering twice with the same inputs gives the same grid.
pub proof fn lemma_image_unique<
    C,
    Z,
    M: Fn(usize, usize, usize, usize) -> C,
    S: Fn(Z, C) -> Z,
    B: Fn(Z) -> bool,
>(
    mapper: M,
    recurrence: Recurrence<Z, S, B>,
    w: usize,
    h: usize,
    max_iter: u32,
    first: Seq<Seq<u8>>,
    second: Seq<Seq<u8>>,
)
    requires
        is_function(mapper),
        is_deterministic::<C, Z, S, B>(recurrence),
        is_image(mapper, recurrence, w, h, max_iter, first),
        is_image(mapper, recurrence, w, h, max_iter, second),
    ensures
        first == second,
{
    assert forall|y: int| 0 <= y < h implies first[y] == second[y] by {
        assert forall|x: int| 0 <= x < w implies first[y][x] == second[y][x] by {
            lemma_level_unique(
                mapper,
                recurrence,
                x as usize,
                y as usize,
                w,
                h,
                max_iter,
                first[y][x],
                second[y][x],
            );
        }
        assert(first[y] =~= second[y]);
    }
    assert(first =~= second);
}

} // verus!
