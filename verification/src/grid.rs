//! Rectangles in row-major grids.

use vstd::arithmetic::div_mod::{lemma_fundamental_div_mod, lemma_fundamental_div_mod_converse};
use vstd::prelude::*;

verus! {

/// Cell `i` of a grid of rows of `stride` cells lies in the rectangle of `w` by `h` cells at
/// column `x` and row `y`.
pub open spec fn in_rect(i: int, stride: int, x: int, y: int, w: int, h: int) -> bool {
    x <= i % stride < x + w && y <= i / stride < y + h
}

/// The grid `s` with the rectangle filled with `v`.
pub open spec fn rect<T>(s: Seq<T>, stride: int, x: int, y: int, w: int, h: int, v: T) -> Seq<T> {
    Seq::new(
        s.len(),
        |i: int|
            if in_rect(i, stride, x, y, w, h) {
                v
            } else {
                s[i]
            },
    )
}

/// A cell at column `x` and row `y` of a `w` by `h` grid, and its place in row-major order.
pub proof fn lemma_cell(x: int, y: int, w: int, h: int)
    requires
        0 <= x < w,
        0 <= y < h,
    ensures
        0 <= y * w + x < w * h,
        (y * w + x) % w == x,
        (y * w + x) / w == y,
        0 <= y * w,
{
    lemma_fundamental_div_mod_converse(y * w + x, w, y, x);
    assert(0 <= y * w && (y + 1) * w <= h * w) by (nonlinear_arith)
        requires
            0 <= y < h,
            0 < w,
    ;
    assert((y + 1) * w == y * w + w) by (nonlinear_arith);
    assert(h * w == w * h) by (nonlinear_arith);
}

/// The column and row of cell `i` of a `w` by `h` grid.
pub proof fn lemma_place(i: int, w: int, h: int)
    requires
        0 <= i < w * h,
        0 <= w,
        0 <= h,
    ensures
        0 < w,
        0 < h,
        0 <= i % w < w,
        0 <= i / w < h,
        i == (i / w) * w + i % w,
{
    assert(0 < w && 0 < h) by (nonlinear_arith)
        requires
            0 < w * h,
            0 <= w,
            0 <= h,
    ;
    lemma_fundamental_div_mod(i, w);
    assert(w * (i / w) == (i / w) * w) by (nonlinear_arith);
    assert(0 <= i % w < w) by (nonlinear_arith)
        requires
            0 < w,
    ;
    assert(0 <= i / w < h) by (nonlinear_arith)
        requires
            0 < w,
            0 <= i < w * h,
            i == w * (i / w) + i % w,
            0 <= i % w < w,
    ;
}

/// Cell `i` is one of the `w` cells from column `x` of row `y` on, of a grid of rows of `stride` cells.
/// Cells past the end of a row are those at the start of the next.
pub open spec fn in_run(i: int, stride: int, x: int, y: int, w: int) -> bool {
    y * stride + x <= i < y * stride + x + w
}

/// Cell `i` is in one of `h` such runs, in rows from `y` on.
pub open spec fn in_runs(i: int, stride: int, x: int, y: int, w: int, h: int) -> bool {
    exists|k: int| y <= k < y + h && #[trigger] in_run(i, stride, x, k, w)
}

/// The grid `s` with the runs filled with `v`, as far as they lie in it.
pub open spec fn runs<T>(s: Seq<T>, stride: int, x: int, y: int, w: int, h: int, v: T) -> Seq<T> {
    Seq::new(
        s.len(),
        |i: int|
            if in_runs(i, stride, x, y, w, h) {
                v
            } else {
                s[i]
            },
    )
}

/// Entry `i` of `s`, or `v` where there is none.
pub open spec fn entry<T>(s: Seq<T>, i: int, v: T) -> T {
    if 0 <= i < s.len() {
        s[i]
    } else {
        v
    }
}

/// One more row of runs.
pub proof fn lemma_runs_step(i: int, stride: int, x: int, y: int, w: int, h: int)
    requires
        0 <= h,
    ensures
        in_runs(i, stride, x, y, w, h + 1) <==> in_runs(i, stride, x, y, w, h) || in_run(
            i,
            stride,
            x,
            y + h,
            w,
        ),
{
    if in_runs(i, stride, x, y, w, h) {
        let k = choose|k: int| y <= k < y + h && #[trigger] in_run(i, stride, x, k, w);
        assert(y <= k < y + (h + 1));
    }
}

/// Where runs start and end in a machine word.
pub proof fn lemma_run_bound(stride: int, x: int, y: int)
    requires
        0 <= stride <= 0x8000_0000,
        0 <= x <= 0x1_0000_0000,
        0 <= y <= 0x1_0000_0000,
    ensures
        0 <= y * stride,
        y * stride + x <= 0x8000_0001_0000_0000,
{
    assert(0 <= y * stride <= 0x1_0000_0000 * 0x8000_0000) by (nonlinear_arith)
        requires
            0 <= stride <= 0x8000_0000,
            0 <= y <= 0x1_0000_0000,
    ;
}

/// Fills runs of a grid, as far as they lie in it.
pub fn fill_runs<T: Copy>(v: &mut Vec<T>, stride: usize, x: u32, y: u32, w: u32, h: u32, value: T)
    requires
        stride <= 0x8000_0000,
        x <= 0x8000_0000,
        y <= 0x8000_0000,
        w <= 0x8000_0000,
        h <= 0x8000_0000,
    ensures
        final(v)@ == runs(
            old(v)@,
            stride as int,
            x as int,
            y as int,
            w as int,
            h as int,
            value,
        ),
{
    let ghost before = v@;
    let cells: usize = v.len();
    let mut dy: u64 = 0;
    assert(v@ =~= runs(before, stride as int, x as int, y as int, w as int, 0, value));
    while dy < h as u64
        invariant
            stride <= 0x8000_0000,
            x <= 0x8000_0000,
            y <= 0x8000_0000,
            w <= 0x8000_0000,
            h <= 0x8000_0000,
            before.len() == cells,
            dy <= h,
            v@ == runs(before, stride as int, x as int, y as int, w as int, dy as int, value),
        decreases h - dy,
    {
        proof {
            lemma_run_bound(stride as int, x + w, y + dy);
        }
        let row: u64 = (y as u64 + dy) * (stride as u64) + x as u64;
        let ghost done = v@;
        let mut dx: u64 = 0;
        while dx < w as u64 && row + dx < cells as u64
            invariant
                dx <= w,
                w <= 0x8000_0000,
                row + w <= 0x8000_0001_0000_0000,
                before.len() == cells,
                v@.len() == cells,
                done.len() == cells,
                forall|i: int|
                    0 <= i < cells ==> #[trigger] v@[i] == (if row <= i < row + dx {
                        value
                    } else {
                        done[i]
                    }),
            decreases w - dx,
        {
            v[(row + dx) as usize] = value;
            dx += 1;
        }
        assert forall|i: int| 0 <= i < cells implies #[trigger] v@[i] == runs(
            before,
            stride as int,
            x as int,
            y as int,
            w as int,
            dy + 1,
            value,
        )[i] by {
            lemma_runs_step(i, stride as int, x as int, y as int, w as int, dy as int);
        }
        assert(v@ =~= runs(
            before,
            stride as int,
            x as int,
            y as int,
            w as int,
            dy + 1,
            value,
        ));
        dy += 1;
    }
}

/// Fills a rectangle of a grid.
pub fn fill_rect<T: Copy>(
    v: &mut Vec<T>,
    stride: usize,
    x: usize,
    y: usize,
    w: usize,
    h: usize,
    value: T,
)
    requires
        0 < stride,
        x + w <= stride,
        (y + h) * stride <= old(v)@.len(),
    ensures
        final(v)@ == rect(
            old(v)@,
            stride as int,
            x as int,
            y as int,
            w as int,
            h as int,
            value,
        ),
{
    let ghost before = v@;
    let cells: usize = v.len();
    let mut dy: usize = 0;
    proof {
        assert(v@ =~= rect(before, stride as int, x as int, y as int, w as int, 0, value));
    }
    while dy < h
        invariant
            0 < stride,
            x + w <= stride,
            before.len() == cells,
            (y + h) * stride <= before.len(),
            dy <= h,
            v@ == rect(before, stride as int, x as int, y as int, w as int, dy as int, value),
        decreases h - dy,
    {
        proof {
            assert((y + dy + 1) * stride <= (y + h) * stride) by (nonlinear_arith)
                requires
                    dy < h,
                    0 < stride,
            ;
            assert((y + dy + 1) * stride == (y + dy) * stride + stride) by (nonlinear_arith);
            assert(0 <= (y + dy) * stride) by (nonlinear_arith)
                requires
                    0 < stride,
                    0 <= y + dy,
            ;
            assert(y + dy <= (y + dy) * stride) by (nonlinear_arith)
                requires
                    0 < stride,
                    0 <= y + dy,
            ;
        }
        let row: usize = (y + dy) * stride + x;
        let mut dx: usize = 0;
        let ghost done = v@;
        while dx < w
            invariant
                dx <= w,
                x + w <= stride,
                row == (y + dy) * stride + x,
                before.len() == cells,
                row + w <= before.len(),
                v@.len() == before.len(),
                done.len() == before.len(),
                forall|i: int|
                    0 <= i < before.len() ==> #[trigger] v@[i] == (if row <= i < row + dx {
                        value
                    } else {
                        done[i]
                    }),
            decreases w - dx,
        {
            v[row + dx] = value;
            dx += 1;
        }
        assert forall|i: int| 0 <= i < before.len() implies #[trigger] v@[i] == rect(
            before,
            stride as int,
            x as int,
            y as int,
            w as int,
            dy + 1,
            value,
        )[i] by {
            if row <= i < row + w {
                lemma_fundamental_div_mod_converse(
                    i,
                    stride as int,
                    y + dy,
                    i - (y + dy) * stride,
                );
            } else {
                lemma_fundamental_div_mod(i, stride as int);
                if i / (stride as int) == y + dy {
                    assert(stride * (i / (stride as int)) == (y + dy) * stride)
                        by (nonlinear_arith)
                        requires
                            i / (stride as int) == y + dy,
                    ;
                }
            }
        }
        assert(v@ =~= rect(
            before,
            stride as int,
            x as int,
            y as int,
            w as int,
            dy + 1,
            value,
        ));
        dy += 1;
    }
}

/// The grid with every cell set to `v`.
pub open spec fn all<T>(n: nat, v: T) -> Seq<T> {
    Seq::new(n, |i: int| v)
}

/// Sets every cell.
pub fn fill_all<T: Copy>(v: &mut Vec<T>, value: T)
    ensures
        final(v)@ == all(old(v)@.len(), value),
{
    let mut i: usize = 0;
    while i < v.len()
        invariant
            i <= v@.len(),
            v@.len() == old(v)@.len(),
            forall|k: int| 0 <= k < i ==> #[trigger] v@[k] == value,
        decreases v@.len() - i,
    {
        v[i] = value;
        i += 1;
    }
    assert(v@ =~= all(old(v)@.len(), value));
}

/// A grid of `n` cells that all hold `value`.
pub fn new_grid<T: Copy>(n: usize, value: T) -> (v: Vec<T>)
    ensures
        v@ == all(n as nat, value),
{
    let mut v: Vec<T> = Vec::new();
    let mut i: usize = 0;
    while i < n
        invariant
            i <= n,
            v@.len() == i,
            forall|k: int| 0 <= k < i ==> #[trigger] v@[k] == value,
        decreases n - i,
    {
        v.push(value);
        i += 1;
    }
    assert(v@ =~= all(n as nat, value));
    v
}

/// A copy of a vector.
pub fn copy_vec<T: Copy>(v: &Vec<T>) -> (r: Vec<T>)
    ensures
        r@ == v@,
{
    let mut r: Vec<T> = Vec::new();
    let mut i: usize = 0;
    while i < v.len()
        invariant
            i <= v@.len(),
            r@ == v@.subrange(0, i as int),
        decreases v@.len() - i,
    {
        r.push(v[i]);
        i += 1;
        assert(r@ =~= v@.subrange(0, i as int));
    }
    assert(r@ =~= v@);
    r
}

/// 1 for true, 0 for false.
pub open spec fn one_if(b: bool) -> int {
    if b {
        1
    } else {
        0
    }
}

/// 1 for true, 0 for false.
pub fn one(b: bool) -> (n: usize)
    ensures
        n == one_if(b),
{
    if b {
        1
    } else {
        0
    }
}

/// Runs that do not reach past the end of their rows are a rectangle.
pub proof fn law_short_runs_are_a_rectangle<T>(
    s: Seq<T>,
    stride: int,
    x: int,
    y: int,
    w: int,
    h: int,
    v: T,
)
    requires
        0 < stride,
        0 <= x,
        x + w <= stride,
    ensures
        runs(s, stride, x, y, w, h, v) == rect(s, stride, x, y, w, h, v),
{
    assert forall|i: int| in_runs(i, stride, x, y, w, h) == in_rect(i, stride, x, y, w, h) by {
        if in_runs(i, stride, x, y, w, h) {
            let k = choose|k: int| y <= k < y + h && #[trigger] in_run(i, stride, x, k, w);
            vstd::arithmetic::div_mod::lemma_fundamental_div_mod_converse(
                i,
                stride,
                k,
                i - k * stride,
            );
        }
        if in_rect(i, stride, x, y, w, h) {
            let k = i / stride;
            vstd::arithmetic::div_mod::lemma_fundamental_div_mod(i, stride);
            assert(stride * k == k * stride) by (nonlinear_arith);
            assert(in_run(i, stride, x, k, w));
        }
    }
    assert(runs(s, stride, x, y, w, h, v) =~= rect(s, stride, x, y, w, h, v));
}

/// Filling a rectangle leaves every cell outside it as it was.
pub proof fn law_fill_is_local<T>(
    s: Seq<T>,
    stride: int,
    x: int,
    y: int,
    w: int,
    h: int,
    v: T,
    i: int,
)
    requires
        0 <= i < s.len(),
    ensures
        rect(s, stride, x, y, w, h, v).len() == s.len(),
        in_rect(i, stride, x, y, w, h) ==> rect(s, stride, x, y, w, h, v)[i] == v,
        !in_rect(i, stride, x, y, w, h) ==> rect(s, stride, x, y, w, h, v)[i] == s[i],
{
}

} // verus!
