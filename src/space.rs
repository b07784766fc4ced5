use vstd::prelude::*;

use crate::direction::{Direction, Sense};

verus! {

/// A rectangle of the screen.
///     * total:        width and height of the screen, in pixels, each at least 1
///     * pixel_coords: (x1, y1, x2, y2), where (0, 0) is the top left corner of the
///                     screen and (width, height) the bottom right one
///
/// The normalized coordinates of the rectangle, where the top left corner of the
/// screen is (-1, 1) and the bottom right one is (1, -1), are an exact function of
/// these (see `normalized_numerators`).
#[derive(Debug, Clone, Copy, PartialEq, Eq)]
pub struct Space {
    pub total: (u32, u32),
    pub pixel_coords: (u32, u32, u32, u32),
}

/// The smaller of two integers.
pub open spec fn min_int(a: int, b: int) -> int {
    if a <= b { a } else { b }
}

impl Space {
    /// The screen has at least one pixel on each axis, and the rectangle lies
    /// inside it with its corners in order.
    pub open spec fn wf(self) -> bool {
        &&& self.total.0 >= 1
        &&& self.total.1 >= 1
        &&& self.pixel_coords.0 <= self.pixel_coords.2 <= self.total.0
        &&& self.pixel_coords.1 <= self.pixel_coords.3 <= self.total.1
    }

    /// The first pixel coordinate of the rectangle along an axis.
    pub open spec fn lo(self, d: Direction) -> int {
        match d {
            Direction::Horizontal => self.pixel_coords.0 as int,
            Direction::Vertical => self.pixel_coords.1 as int,
        }
    }

    /// The last pixel coordinate of the rectangle along an axis.
    pub open spec fn hi(self, d: Direction) -> int {
        match d {
            Direction::Horizontal => self.pixel_coords.2 as int,
            Direction::Vertical => self.pixel_coords.3 as int,
        }
    }

    /// The size of the rectangle along an axis, in pixels.
    pub open spec fn extent(self, d: Direction) -> int {
        self.hi(d) - self.lo(d)
    }

    /// This rectangle with its range along `d` replaced by `[lo, hi]`.
    pub open spec fn with_range(self, d: Direction, lo: int, hi: int) -> Space {
        match d {
            Direction::Horizontal => Space {
                total: self.total,
                pixel_coords: (lo as u32, self.pixel_coords.1, hi as u32, self.pixel_coords.3),
            },
            Direction::Vertical => Space {
                total: self.total,
                pixel_coords: (self.pixel_coords.0, lo as u32, self.pixel_coords.2, hi as u32),
            },
        }
    }

    /// The two parts of a cut along `d` whose first part has extent `e`: measured from
    /// the start of the axis for Forward, from its end for Backwards. The second part
    /// is the rest.
    pub open spec fn cut(self, d: Direction, s: Sense, e: int) -> (Space, Space) {
        match s {
            Sense::Forward => (
                self.with_range(d, self.lo(d), self.lo(d) + e),
                self.with_range(d, self.lo(d) + e, self.hi(d)),
            ),
            Sense::Backwards => (
                self.with_range(d, self.hi(d) - e, self.hi(d)),
                self.with_range(d, self.lo(d), self.hi(d) - e),
            ),
        }
    }

    /// The position of the `k`-th of the `n + 1` boundaries that cut the rectangle into
    /// `n` parts of equal extent along `d`, rounded down to a pixel.
    pub open spec fn boundary(self, d: Direction, n: int, k: int) -> int {
        self.lo(d) + k * self.extent(d) / n
    }

    /// The `i`-th of `n` equal parts along `d`: counted from the start of the axis for
    /// Forward, from its end for Backwards.
    pub open spec fn slice(self, d: Direction, s: Sense, n: int, i: int) -> Space {
        let k = match s {
            Sense::Forward => i,
            Sense::Backwards => n - 1 - i,
        };
        self.with_range(d, self.boundary(d, n, k), self.boundary(d, n, k + 1))
    }

    /// The extent of the first part of a split by `numerator / denominator`.
    pub open spec fn split_extent(self, d: Direction, numerator: int, denominator: int) -> int {
        self.extent(d) * numerator / denominator
    }

    /// The extent of the slice that a trim of `pixels` cuts: never more than there is.
    pub open spec fn trim_extent(self, d: Direction, pixels: int) -> int {
        min_int(pixels, self.extent(d))
    }

    /// This rectangle with `h` pixels taken from the left and the right and `v` pixels
    /// from the top and the bottom, each at most half the extent.
    pub open spec fn shrunk(self, h: int, v: int) -> Space {
        let ih = min_int(h, self.extent(Direction::Horizontal) / 2);
        let iv = min_int(v, self.extent(Direction::Vertical) / 2);
        Space {
            total: self.total,
            pixel_coords: (
                (self.pixel_coords.0 + ih) as u32,
                (self.pixel_coords.1 + iv) as u32,
                (self.pixel_coords.2 - ih) as u32,
                (self.pixel_coords.3 - iv) as u32,
            ),
        }
    }

    /// The pixel (x, y) lies strictly inside the rectangle.
    pub open spec fn contains(self, x: int, y: int) -> bool {
        &&& self.pixel_coords.0 < x < self.pixel_coords.2
        &&& self.pixel_coords.1 < y < self.pixel_coords.3
    }

    /// The normalized coordinate of the pixel column `px`, times the screen width.
    pub open spec fn norm_x(self, px: int) -> int {
        2 * px - self.total.0
    }

    /// The normalized coordinate of the pixel row `py`, times the screen height.
    pub open spec fn norm_y(self, py: int) -> int {
        self.total.1 - 2 * py
    }

    /// A Space that covers the whole screen of the given size; a size of 0 counts as 1.
    pub fn new(width: u32, height: u32) -> (r: Space)
        ensures
            r.wf(),
            r.total == (if width >= 1 { width } else { 1u32 }, if height >= 1 { height } else { 1u32 }),
            r.pixel_coords == (0u32, 0u32, r.total.0, r.total.1),
    {
        let w: u32 = if width >= 1 { width } else { 1 };
        let h: u32 = if height >= 1 { height } else { 1 };
        Space { total: (w, h), pixel_coords: (0, 0, w, h) }
    }

    /// The pixel coordinate pair (first, last) of the rectangle along an axis.
    fn range(&self, d: Direction) -> (r: (u32, u32))
        ensures
            r.0 == self.lo(d),
            r.1 == self.hi(d),
    {
        match d {
            Direction::Horizontal => (self.pixel_coords.0, self.pixel_coords.2),
            Direction::Vertical => (self.pixel_coords.1, self.pixel_coords.3),
        }
    }

    /// This rectangle with its range along `d` replaced by `[lo, hi]`.
    fn replace_range(&self, d: Direction, lo: u32, hi: u32) -> (r: Space)
        ensures
            r == self.with_range(d, lo as int, hi as int),
    {
        match d {
            Direction::Horizontal => Space {
                total: self.total,
                pixel_coords: (lo, self.pixel_coords.1, hi, self.pixel_coords.3),
            },
            Direction::Vertical => Space {
                total: self.total,
                pixel_coords: (self.pixel_coords.0, lo, self.pixel_coords.2, hi),
            },
        }
    }

    /// Cuts the rectangle along `d` into a first part of extent `e`, measured from the
    /// end that `s` names, and the rest.
    fn cut_at(&self, d: Direction, s: Sense, e: u32) -> (r: (Space, Space))
        requires
            self.wf(),
            e <= self.extent(d),
        ensures
            r == self.cut(d, s, e as int),
            r.0.wf(),
            r.1.wf(),
    {
        let (lo, hi) = self.range(d);
        match s {
            Sense::Forward => (self.replace_range(d, lo, lo + e), self.replace_range(d, lo + e, hi)),
            Sense::Backwards => (self.replace_range(d, hi - e, hi), self.replace_range(d, lo, hi - e)),
        }
    }

    /// The pixel (x, y) lies strictly inside the rectangle.
    pub fn is_inside(&self, x: u32, y: u32) -> (r: bool)
        ensures
            r == self.contains(x as int, y as int),
    {
        x > self.pixel_coords.0 && x < self.pixel_coords.2 && y > self.pixel_coords.1
            && y < self.pixel_coords.3
    }

    /// Splits the rectangle in two along `direction`; the first part takes
    /// `numerator / denominator` of the extent, rounded down to a pixel, measured from
    /// the end that `sense` names.
    pub fn split(self, numerator: u32, denominator: u32, direction: Direction, sense: Sense) -> (r: (Space, Space))
        requires
            self.wf(),
            0 < numerator < denominator,
        ensures
            r == self.cut(direction, sense, self.split_extent(direction, numerator as int, denominator as int)),
            r.0.wf(),
            r.1.wf(),
    {
        let (lo, hi) = self.range(direction);
        let ext: u64 = (hi - lo) as u64;
        proof {
            assert(ext as int * numerator as int <= 0xFFFF_FFFF * 0xFFFF_FFFF) by (nonlinear_arith)
                requires 0 <= ext <= 0xFFFF_FFFF, 0 <= numerator <= 0xFFFF_FFFF;
        }
        let e64: u64 = ext * (numerator as u64) / (denominator as u64);
        proof {
            let x = ext as int;
            let n = numerator as int;
            let q = denominator as int;
            assert(x * n <= x * q) by (nonlinear_arith)
                requires 0 <= x, 0 < n < q;
            assert(x * n / q <= x) by (nonlinear_arith)
                requires 0 < q, 0 <= x * n <= x * q;
        }
        self.cut_at(direction, sense, e64 as u32)
    }

    /// Cuts a slice of `pixels` pixels from the end of the rectangle that `sense` names
    /// along `direction`; the slice never exceeds the rectangle. Returns the slice and
    /// the rest.
    pub fn trim(self, pixels: u32, direction: Direction, sense: Sense) -> (r: (Space, Space))
        requires
            self.wf(),
            pixels > 0,
        ensures
            r == self.cut(direction, sense, self.trim_extent(direction, pixels as int)),
            r.0.wf(),
            r.1.wf(),
    {
        let (lo, hi) = self.range(direction);
        let e: u32 = if pixels <= hi - lo { pixels } else { hi - lo };
        self.cut_at(direction, sense, e)
    }

    /// The `k`-th of the `n + 1` boundaries of an equal division along `d`.
    fn boundary_at(&self, d: Direction, n: usize, k: usize) -> (r: u32)
        requires
            self.wf(),
            0 < n,
            k <= n,
        ensures
            r == self.boundary(d, n as int, k as int),
            self.lo(d) <= r <= self.hi(d),
    {
        let (lo, hi) = self.range(d);
        let ext: u128 = (hi - lo) as u128;
        proof {
            let x = ext as int;
            assert(k as int * x <= n as int * x) by (nonlinear_arith)
                requires 0 <= x, 0 <= k <= n;
            assert(n as int * x <= 0x1_0000_0000_0000_0000 * 0x1_0000_0000) by (nonlinear_arith)
                requires 0 <= x < 0x1_0000_0000, 0 < n < 0x1_0000_0000_0000_0000;
            assert(k as int * x / n as int <= x) by (nonlinear_arith)
                requires 0 < n, 0 <= k as int * x <= n as int * x;
            assert(0 <= k as int * x / n as int) by (nonlinear_arith)
                requires 0 < n, 0 <= k as int * x;
        }
        let off: u128 = (k as u128) * ext / (n as u128);
        lo + off as u32
    }

    /// Divides the rectangle into `divs` parts of equal extent along `direction`,
    /// each boundary rounded down to a pixel. Part 0 is at the start of the axis for
    /// Forward and at its end for Backwards.
    pub fn divide(self, divs: usize, direction: Direction, sense: Sense) -> (r: Vec<Space>)
        requires
            self.wf(),
            divs > 0,
        ensures
            r@.len() == divs,
            forall|i: int| 0 <= i < divs ==> #[trigger] r@[i] == self.slice(direction, sense, divs as int, i),
            forall|i: int| 0 <= i < divs ==> (#[trigger] r@[i]).wf(),
    {
        let mut result: Vec<Space> = Vec::new();
        let mut i: usize = 0;
        while i < divs
            invariant
                self.wf(),
                0 < divs,
                i <= divs,
                result@.len() == i,
                forall|j: int| 0 <= j < i ==> #[trigger] result@[j] == self.slice(direction, sense, divs as int, j),
                forall|j: int| 0 <= j < i ==> (#[trigger] result@[j]).wf(),
            decreases divs - i,
        {
            let k: usize = match sense {
                Sense::Forward => i,
                Sense::Backwards => divs - 1 - i,
            };
            let a = self.boundary_at(direction, divs, k);
            let b = self.boundary_at(direction, divs, k + 1);
            proof {
                let x = self.extent(direction);
                let n = divs as int;
                assert(k as int * x / n <= (k as int + 1) * x / n) by (nonlinear_arith)
                    requires 0 <= x, 0 < n, 0 <= k;
            }
            let part = self.replace_range(direction, a, b);
            result.push(part);
            i = i + 1;
        }
        result
    }

    /// Takes `pixels_hor` pixels from the left and the right and `pixels_vert` pixels
    /// from the top and the bottom, each at most half the extent, so that the
    /// rectangle never turns over.
    pub fn shrink(&self, pixels_hor: u32, pixels_vert: u32) -> (r: Space)
        requires
            self.wf(),
        ensures
            r == self.shrunk(pixels_hor as int, pixels_vert as int),
            r.wf(),
    {
        let half_w: u32 = (self.pixel_coords.2 - self.pixel_coords.0) / 2;
        let half_h: u32 = (self.pixel_coords.3 - self.pixel_coords.1) / 2;
        let ih: u32 = if pixels_hor <= half_w { pixels_hor } else { half_w };
        let iv: u32 = if pixels_vert <= half_h { pixels_vert } else { half_h };
        Space {
            total: self.total,
            pixel_coords: (
                self.pixel_coords.0 + ih,
                self.pixel_coords.1 + iv,
                self.pixel_coords.2 - ih,
                self.pixel_coords.3 - iv,
            ),
        }
    }

    /// The normalized coordinates (x1, y1, x2, y2) of the rectangle, each times the
    /// screen's extent on its axis: x1 / width is the left edge in [-1, 1] and
    /// y1 / height the top edge.
    pub fn normalized_numerators(&self) -> (r: (i64, i64, i64, i64))
        requires
            self.wf(),
        ensures
            r.0 == self.norm_x(self.pixel_coords.0 as int),
            r.1 == self.norm_y(self.pixel_coords.1 as int),
            r.2 == self.norm_x(self.pixel_coords.2 as int),
            r.3 == self.norm_y(self.pixel_coords.3 as int),
    {
        let w = self.total.0 as i64;
        let h = self.total.1 as i64;
        (
            2 * (self.pixel_coords.0 as i64) - w,
            h - 2 * (self.pixel_coords.1 as i64),
            2 * (self.pixel_coords.2 as i64) - w,
            h - 2 * (self.pixel_coords.3 as i64),
        )
    }
}

/// The two parts `first` and `second`, in this order, lie side by side along `d`
/// without gap or overlap, cover this rectangle, and keep its range on the other axis.
pub open spec fn is_concatenation(sp: Space, d: Direction, first: Space, second: Space) -> bool {
    &&& first.total == sp.total
    &&& second.total == sp.total
    &&& first.lo(d) == sp.lo(d)
    &&& first.hi(d) == second.lo(d)
    &&& second.hi(d) == sp.hi(d)
    &&& first.lo(d.other()) == sp.lo(d.other())
    &&& first.hi(d.other()) == sp.hi(d.other())
    &&& second.lo(d.other()) == sp.lo(d.other())
    &&& second.hi(d.other()) == sp.hi(d.other())
}

/// A split by a proportion in (0, 1) gives two well-formed parts (neither has a
/// negative extent) that, put end to end along the split axis, make up the rectangle
/// exactly: the first part then the second for Forward, the other way for Backwards.
pub proof fn lemma_split_concatenates(sp: Space, numerator: u32, denominator: u32, d: Direction, s: Sense)
    requires
        sp.wf(),
        0 < numerator < denominator,
    ensures
        ({
            let (first, second) = sp.cut(d, s, sp.split_extent(d, numerator as int, denominator as int));
            &&& first.wf()
            &&& second.wf()
            &&& first.extent(d) + second.extent(d) == sp.extent(d)
            &&& s == Sense::Forward ==> is_concatenation(sp, d, first, second)
            &&& s == Sense::Backwards ==> is_concatenation(sp, d, second, first)
        }),
{
    let x = sp.extent(d);
    let n = numerator as int;
    let q = denominator as int;
    assert(0 <= x * n / q <= x) by (nonlinear_arith)
        requires 0 <= x, 0 < n < q;
}

/// A trim never cuts a slice larger than the rectangle, nor larger than asked,
/// even when more pixels are asked than there are; slice and rest make up the
/// rectangle as a split does.
pub proof fn lemma_trim_within(sp: Space, pixels: u32, d: Direction, s: Sense)
    requires
        sp.wf(),
        pixels > 0,
    ensures
        ({
            let (slice, rest) = sp.cut(d, s, sp.trim_extent(d, pixels as int));
            &&& slice.wf()
            &&& rest.wf()
            &&& slice.extent(d) <= sp.extent(d)
            &&& slice.extent(d) <= pixels
            &&& pixels as int <= sp.extent(d) ==> slice.extent(d) == pixels
            &&& s == Sense::Forward ==> is_concatenation(sp, d, slice, rest)
            &&& s == Sense::Backwards ==> is_concatenation(sp, d, rest, slice)
        }),
{
}

/// Bounds on one step between consecutive boundaries of an equal division.
proof fn lemma_boundary_step(sp: Space, d: Direction, n: int, k: int)
    requires
        sp.wf(),
        0 < n,
        0 <= k < n,
    ensures
        sp.boundary(d, n, k) <= sp.boundary(d, n, k + 1),
        sp.extent(d) / n <= sp.boundary(d, n, k + 1) - sp.boundary(d, n, k) <= sp.extent(d) / n + 1,
        sp.extent(d) % n == 0 ==> sp.boundary(d, n, k + 1) - sp.boundary(d, n, k) == sp.extent(d) / n,
        sp.lo(d) <= sp.boundary(d, n, k),
        sp.boundary(d, n, k + 1) <= sp.hi(d),
{
    let x = sp.extent(d);
    let a = k * x / n;
    let b = (k + 1) * x / n;
    let q = x / n;
    let r = x % n;
    assert(x == n * q + r && 0 <= r < n && 0 <= q) by (nonlinear_arith)
        requires 0 <= x, 0 < n, q == x / n, r == x % n;
    assert(n * a <= k * x < n * a + n) by (nonlinear_arith)
        requires 0 < n, a == k * x / n;
    assert(n * b <= (k + 1) * x < n * b + n) by (nonlinear_arith)
        requires 0 < n, b == (k + 1) * x / n;
    assert(q <= b - a <= q + 1) by (nonlinear_arith)
        requires 0 < n, x == n * q + r, 0 <= r < n,
            n * a <= k * x < n * a + n, n * b <= (k + 1) * x < n * b + n;
    assert(r == 0 ==> b - a == q) by (nonlinear_arith)
        requires 0 < n, x == n * q + r, 0 <= r < n,
            n * a <= k * x < n * a + n, n * b <= (k + 1) * x < n * b + n;
    assert(0 <= a && b <= x) by (nonlinear_arith)
        requires 0 < n, 0 <= x, 0 <= k < n, a == k * x / n, b == (k + 1) * x / n;
}

/// An equal division into `n >= 1` parts gives well-formed parts whose extents along
/// the axis are all the same up to the rounding to whole pixels (they differ by at
/// most one pixel, and not at all when `n` divides the extent), that lie end to end
/// in index order for Forward and in reverse index order for Backwards, and that
/// together cover the rectangle exactly.
pub proof fn lemma_divide_tiles(sp: Space, n: usize, d: Direction, s: Sense)
    requires
        sp.wf(),
        n > 0,
    ensures
        forall|i: int| 0 <= i < n ==> (#[trigger] sp.slice(d, s, n as int, i)).wf(),
        forall|i: int| 0 <= i < n ==> sp.extent(d) / (n as int) <= (#[trigger] sp.slice(d, s, n as int, i)).extent(d)
            <= sp.extent(d) / (n as int) + 1,
        sp.extent(d) % (n as int) == 0 ==> forall|i: int| 0 <= i < n ==>
            (#[trigger] sp.slice(d, s, n as int, i)).extent(d) == sp.extent(d) / (n as int),
        forall|i: int| 0 <= i < n ==> {
            let p = #[trigger] sp.slice(d, s, n as int, i);
            &&& p.total == sp.total
            &&& p.lo(d.other()) == sp.lo(d.other())
            &&& p.hi(d.other()) == sp.hi(d.other())
        },
        s == Sense::Forward ==> {
            &&& sp.slice(d, s, n as int, 0).lo(d) == sp.lo(d)
            &&& sp.slice(d, s, n as int, n - 1).hi(d) == sp.hi(d)
            &&& forall|i: int| 0 <= i < n - 1 ==>
                (#[trigger] sp.slice(d, s, n as int, i)).hi(d) == sp.slice(d, s, n as int, i + 1).lo(d)
        },
        s == Sense::Backwards ==> {
            &&& sp.slice(d, s, n as int, n - 1).lo(d) == sp.lo(d)
            &&& sp.slice(d, s, n as int, 0).hi(d) == sp.hi(d)
            &&& forall|i: int| 0 <= i < n - 1 ==>
                (#[trigger] sp.slice(d, s, n as int, i)).lo(d) == sp.slice(d, s, n as int, i + 1).hi(d)
        },
{
    let nn = n as int;
    assert forall|k: int| 0 <= k < nn implies {
        &&& #[trigger] sp.boundary(d, nn, k) <= sp.boundary(d, nn, k + 1)
        &&& sp.extent(d) / nn <= sp.boundary(d, nn, k + 1) - sp.boundary(d, nn, k) <= sp.extent(d) / nn + 1
        &&& sp.extent(d) % nn == 0 ==> sp.boundary(d, nn, k + 1) - sp.boundary(d, nn, k) == sp.extent(d) / nn
        &&& sp.lo(d) <= sp.boundary(d, nn, k)
        &&& sp.boundary(d, nn, k + 1) <= sp.hi(d)
    } by {
        lemma_boundary_step(sp, d, nn, k);
    }
    assert(sp.boundary(d, nn, 0) == sp.lo(d));
    assert(sp.boundary(d, nn, nn) == sp.hi(d)) by (nonlinear_arith)
        requires nn > 0, sp.boundary(d, nn, nn) == sp.lo(d) + nn * sp.extent(d) / nn;
}

/// A pixel on the border of the rectangle is never inside it, and the center is
/// inside it when the rectangle is more than two pixels wide and high.
pub proof fn lemma_inside_is_strict(sp: Space, x: int, y: int)
    requires
        sp.wf(),
    ensures
        x == sp.pixel_coords.0 || x == sp.pixel_coords.2 || y == sp.pixel_coords.1 || y == sp.pixel_coords.3
            ==> !sp.contains(x, y),
        sp.extent(Direction::Horizontal) > 2 && sp.extent(Direction::Vertical) > 2 ==> sp.contains(
            (sp.pixel_coords.0 + sp.pixel_coords.2) / 2,
            (sp.pixel_coords.1 + sp.pixel_coords.3) / 2,
        ),
{
}

} // verus!
