//! The spin lattice: a rectangular grid of two-valued spins with periodic
//! (toroidal) boundary conditions, stored row-major.

use vstd::prelude::*;
use vstd::string::StringExecFns;

verus! {

/// Text of one site as the snapshot format writes it: the polarity, then a
/// space.
pub open spec fn spec_site_text(b: bool) -> Seq<char> {
    if b {
        seq!['1', ' ']
    } else {
        seq!['-', '1', ' ']
    }
}

/// Polarity of one spin as an integer: `true` is +1, `false` is -1.
pub open spec fn spin_value(b: bool) -> int {
    if b {
        1
    } else {
        -1
    }
}

/// Sum of spin polarities over a sequence of sites.
pub open spec fn spin_sum(s: Seq<bool>) -> int
    decreases s.len(),
{
    if s.len() == 0 {
        0
    } else {
        spin_sum(s.drop_last()) + spin_value(s.last())
    }
}

/// The total spin of any configuration is bounded by the site count:
/// `-n <= spin_sum(s) <= n` for `n` sites (magnetization bound).
pub proof fn lemma_spin_sum_bound(s: Seq<bool>)
    ensures
        -(s.len() as int) <= spin_sum(s) <= s.len() as int,
    decreases s.len(),
{
    if s.len() > 0 {
        lemma_spin_sum_bound(s.drop_last());
    }
}

/// A number already inside `[0, m)` is its own remainder.
pub proof fn lemma_mod_small(a: int, m: int)
    requires
        0 <= a < m,
    ensures
        a % m == a,
{
    assert(a % m == a) by (nonlinear_arith)
        requires
            0 <= a < m,
    ;
}

/// Boundary wraparound: reading one column past the right edge is the same
/// as reading column zero, and one row past the bottom edge the same as row
/// zero, for every valid coordinate.
pub proof fn lemma_boundary_wraparound(lat: Lattice, x: int, y: int)
    requires
        lat.wf(),
        0 <= x < lat.spec_width(),
        0 <= y < lat.spec_height(),
    ensures
        lat.spec_spin_at(lat.spec_width(), y) == lat.spec_spin_at(0, y),
        lat.spec_spin_at(x, lat.spec_height()) == lat.spec_spin_at(x, 0),
{
    let w = lat.spec_width();
    let h = lat.spec_height();
    assert(w % w == 0 && 0int % w == 0 && h % h == 0 && 0int % h == 0) by (nonlinear_arith)
        requires
            w > 0,
            h > 0,
    ;
    lemma_mod_small(x, w);
    lemma_mod_small(y, h);
}

/// Magnetization bound: the total spin of a well-formed lattice lies within
/// plus or minus the site count.
pub proof fn lemma_magnetization_bound(lat: Lattice)
    requires
        lat.wf(),
    ensures
        -lat.site_count() <= spin_sum(lat.spins()) <= lat.site_count(),
{
    lemma_spin_sum_bound(lat.spins());
}

/// A 2-D grid of spins with toroidal boundaries.  Site `(x, y)` lives at
/// linear index `y * width + x`.
pub struct Lattice {
    spin: Vec<bool>,
    width: usize,
    height: usize,
}

impl Lattice {
    /// The spin configuration as a sequence over linear site indices.
    pub closed spec fn spins(&self) -> Seq<bool> {
        self.spin@
    }

    pub closed spec fn spec_width(&self) -> int {
        self.width as int
    }

    pub closed spec fn spec_height(&self) -> int {
        self.height as int
    }

    /// Number of sites.
    pub open spec fn site_count(&self) -> int {
        self.spec_width() * self.spec_height()
    }

    /// Structural invariant: positive dimensions, one stored spin per site,
    /// and a site count small enough that the total spin fits in an `i32`.
    pub open spec fn wf(&self) -> bool {
        &&& self.spec_width() > 0
        &&& self.spec_height() > 0
        &&& self.spins().len() == self.site_count()
        &&& self.site_count() <= i32::MAX
    }

    /// Spin polarity at the given coordinates, wrapped onto the torus.
    pub open spec fn spec_spin_at(&self, x: int, y: int) -> int
        recommends
            self.wf(),
            x >= 0,
            y >= 0,
    {
        spin_value(
            self.spins()[(y % self.spec_height()) * self.spec_width() + (x % self.spec_width())],
        )
    }

    /// A fresh lattice with every spin set to +1 (fully polarized).
    pub fn new(width: usize, height: usize) -> (lat: Lattice)
        requires
            width > 0,
            height > 0,
            width * height <= i32::MAX,
        ensures
            lat.wf(),
            lat.spec_width() == width,
            lat.spec_height() == height,
            forall|i: int| 0 <= i < lat.spins().len() ==> lat.spins()[i] == true,
    {
        let n = width * height;
        let mut spin: Vec<bool> = Vec::new();
        let mut i: usize = 0;
        while i < n
            invariant
                i <= n,
                spin@.len() == i,
                forall|k: int| 0 <= k < i ==> spin@[k] == true,
            decreases n - i,
        {
            spin.push(true);
            i = i + 1;
        }
        Lattice { spin, width, height }
    }

    /// Reads the polarity at `(x, y)`, wrapping both coordinates onto the
    /// torus, so `get_spin(width, y) == get_spin(0, y)` and likewise in `y`.
    pub fn get_spin(&self, x: usize, y: usize) -> (s: i32)
        requires
            self.wf(),
        ensures
            s == self.spec_spin_at(x as int, y as int),
            s == 1 || s == -1,
    {
        let xr = x % self.width;
        let yr = y % self.height;
        proof {
            assert(yr * self.width + xr < self.height * self.width) by (nonlinear_arith)
                requires
                    xr < self.width,
                    yr < self.height,
            ;
            assert(self.width * self.height == self.height * self.width) by (nonlinear_arith);
        }
        let i = yr * self.width + xr;
        if self.spin[i] {
            1
        } else {
            -1
        }
    }

    /// Overwrites the single site `(x, y)` with polarity `v`.
    pub fn set_spin(&mut self, x: usize, y: usize, v: bool)
        requires
            old(self).wf(),
            x < old(self).spec_width(),
            y < old(self).spec_height(),
        ensures
            final(self).wf(),
            final(self).spec_width() == old(self).spec_width(),
            final(self).spec_height() == old(self).spec_height(),
            final(self).spins() == old(self).spins().update(
                y * old(self).spec_width() + x,
                v,
            ),
    {
        proof {
            assert(y * self.width + x < self.height * self.width) by (nonlinear_arith)
                requires
                    x < self.width,
                    y < self.height,
            ;
            assert(self.width * self.height == self.height * self.width) by (nonlinear_arith);
        }
        let i = y * self.width + x;
        self.spin.set(i, v);
    }

    /// Inverts the single site `(x, y)`.
    pub fn flip_spin(&mut self, x: usize, y: usize)
        requires
            old(self).wf(),
            x < old(self).spec_width(),
            y < old(self).spec_height(),
        ensures
            final(self).wf(),
            final(self).spec_width() == old(self).spec_width(),
            final(self).spec_height() == old(self).spec_height(),
            final(self).spins() == old(self).spins().update(
                y * old(self).spec_width() + x,
                !old(self).spins()[y * old(self).spec_width() + x],
            ),
    {
        proof {
            assert(y * self.width + x < self.height * self.width) by (nonlinear_arith)
                requires
                    x < self.width,
                    y < self.height,
            ;
            assert(self.width * self.height == self.height * self.width) by (nonlinear_arith);
        }
        let i = y * self.width + x;
        let cur = self.spin[i];
        self.spin.set(i, !cur);
    }

    /// Lattice width, in sites.
    pub fn width(&self) -> (w: usize)
        ensures
            w == self.spec_width(),
    {
        self.width
    }

    /// Lattice height, in sites.
    pub fn height(&self) -> (h: usize)
        ensures
            h == self.spec_height(),
    {
        self.height
    }

    /// Interaction term of one site with its +x and +y neighbours (each
    /// unique nearest-neighbour pair of the periodic cell counted once).
    pub open spec fn spec_pair_term(&self, x: int, y: int) -> int {
        self.spec_spin_at(x, y) * (self.spec_spin_at(x + 1, y) + self.spec_spin_at(x, y + 1))
    }

    /// Partial sum of the pair terms of column `x`, over rows `0 .. upto_y`.
    pub open spec fn col_sum(&self, x: int, upto_y: int) -> int
        decreases upto_y,
    {
        if upto_y <= 0 {
            0
        } else {
            self.col_sum(x, upto_y - 1) + self.spec_pair_term(x, upto_y - 1)
        }
    }

    /// Sum of the pair terms of the full columns `0 .. upto_x`.
    pub open spec fn cols_sum(&self, upto_x: int) -> int
        decreases upto_x,
    {
        if upto_x <= 0 {
            0
        } else {
            self.cols_sum(upto_x - 1) + self.col_sum(upto_x - 1, self.spec_height())
        }
    }

    /// Sum over all sites of the +x/+y neighbour interaction terms: the
    /// integer part of the action.  The action itself is this sum times the
    /// coupling constant, plus `field * total_spin`, divided by the negated
    /// temperature — floating-point scaling left to the caller.
    pub open spec fn spec_interaction_sum(&self) -> int {
        self.cols_sum(self.spec_width())
    }

    proof fn lemma_pair_term_bound(&self, x: int, y: int)
        ensures
            -2 <= self.spec_pair_term(x, y) <= 2,
    {
        let a = self.spec_spin_at(x, y);
        let b = self.spec_spin_at(x + 1, y);
        let c = self.spec_spin_at(x, y + 1);
        assert(-2 <= a * (b + c) <= 2) by (nonlinear_arith)
            requires
                a == 1 || a == -1,
                b == 1 || b == -1,
                c == 1 || c == -1,
        ;
    }

    proof fn lemma_col_sum_bound(&self, x: int, upto_y: int)
        requires
            upto_y >= 0,
        ensures
            -2 * upto_y <= self.col_sum(x, upto_y) <= 2 * upto_y,
        decreases upto_y,
    {
        if upto_y > 0 {
            self.lemma_col_sum_bound(x, upto_y - 1);
            self.lemma_pair_term_bound(x, upto_y - 1);
        }
    }

    proof fn lemma_cols_sum_bound(&self, upto_x: int)
        requires
            upto_x >= 0,
            self.spec_height() >= 0,
        ensures
            -2 * upto_x * self.spec_height() <= self.cols_sum(upto_x) <= 2 * upto_x
                * self.spec_height(),
        decreases upto_x,
    {
        if upto_x > 0 {
            self.lemma_cols_sum_bound(upto_x - 1);
            self.lemma_col_sum_bound(upto_x - 1, self.spec_height());
            let h = self.spec_height();
            let c1 = self.cols_sum(upto_x - 1);
            let c2 = self.col_sum(upto_x - 1, h);
            assert(-2 * upto_x * h <= c1 + c2 <= 2 * upto_x * h) by (nonlinear_arith)
                requires
                    upto_x >= 1,
                    h >= 0,
                    -2 * (upto_x - 1) * h <= c1 <= 2 * (upto_x - 1) * h,
                    -2 * h <= c2 <= 2 * h,
            ;
        }
    }

    /// Computes the interaction sum by walking every site once.
    pub fn interaction_sum(&self) -> (r: i64)
        requires
            self.wf(),
        ensures
            r == self.spec_interaction_sum(),
    {
        let mut sum: i64 = 0;
        let mut ix: usize = 0;
        while ix < self.width
            invariant
                self.wf(),
                ix <= self.spec_width(),
                sum == self.cols_sum(ix as int),
            decreases self.spec_width() - ix,
        {
            let ixp1 = (ix + 1) % self.width;
            let mut iy: usize = 0;
            while iy < self.height
                invariant
                    self.wf(),
                    ix < self.spec_width(),
                    iy <= self.spec_height(),
                    ixp1 == (ix + 1) as int % self.spec_width(),
                    sum == self.cols_sum(ix as int) + self.col_sum(ix as int, iy as int),
                decreases self.spec_height() - iy,
            {
                let iyp1 = (iy + 1) % self.height;
                let s00 = self.get_spin(ix, iy);
                let s10 = self.get_spin(ixp1, iy);
                let s01 = self.get_spin(ix, iyp1);
                proof {
                    lemma_mod_small(ixp1 as int, self.spec_width());
                    lemma_mod_small(iyp1 as int, self.spec_height());
                    assert(self.spec_spin_at(ixp1 as int, iy as int) == self.spec_spin_at(
                        ix + 1,
                        iy as int,
                    ));
                    assert(self.spec_spin_at(ix as int, iyp1 as int) == self.spec_spin_at(
                        ix as int,
                        iy + 1,
                    ));
                    self.lemma_cols_sum_bound(ix as int);
                    self.lemma_col_sum_bound(ix as int, iy as int);
                    let w = self.spec_width();
                    let h = self.spec_height();
                    let c1 = self.cols_sum(ix as int);
                    let c2 = self.col_sum(ix as int, iy as int);
                    assert(-2 <= s00 * (s10 + s01) <= 2) by (nonlinear_arith)
                        requires
                            s00 == 1 || s00 == -1,
                            s10 == 1 || s10 == -1,
                            s01 == 1 || s01 == -1,
                    ;
                    assert(-(2 * (w * h)) <= c1 + c2 - 2 && c1 + c2 + 2 <= 2 * (w * h))
                        by (nonlinear_arith)
                        requires
                            0 <= ix < w,
                            0 <= iy < h,
                            -2 * (ix as int) * h <= c1 <= 2 * (ix as int) * h,
                            -2 * (iy as int) <= c2 <= 2 * (iy as int),
                    ;
                }
                let term = s00 * (s10 + s01);
                sum = sum + term as i64;
                iy = iy + 1;
            }
            ix = ix + 1;
        }
        sum
    }

    /// Text of row `y` over columns `0 .. upto_x`.
    pub open spec fn spec_row_text(&self, y: int, upto_x: int) -> Seq<char>
        decreases upto_x,
    {
        if upto_x <= 0 {
            Seq::empty()
        } else {
            self.spec_row_text(y, upto_x - 1) + spec_site_text(
                self.spins()[y * self.spec_width() + (upto_x - 1)],
            )
        }
    }

    /// Text of rows `0 .. upto_y`, each terminated by a newline.
    pub open spec fn spec_rows_text(&self, upto_y: int) -> Seq<char>
        decreases upto_y,
    {
        if upto_y <= 0 {
            Seq::empty()
        } else {
            self.spec_rows_text(upto_y - 1) + self.spec_row_text(upto_y - 1, self.spec_width())
                + seq!['\n']
        }
    }

    /// The whole snapshot: one line of space-separated polarities per row,
    /// terminated by a blank line.
    pub open spec fn spec_render(&self) -> Seq<char> {
        self.spec_rows_text(self.spec_height()) + seq!['\n']
    }

    /// Renders the lattice in the snapshot format.
    pub fn render(&self) -> (out: String)
        requires
            self.wf(),
        ensures
            out@ == self.spec_render(),
    {
        let mut out = String::new();
        let mut iy: usize = 0;
        while iy < self.height
            invariant
                self.wf(),
                iy <= self.spec_height(),
                out@ == self.spec_rows_text(iy as int),
            decreases self.spec_height() - iy,
        {
            let ghost row_start = out@;
            let mut ix: usize = 0;
            while ix < self.width
                invariant
                    self.wf(),
                    iy < self.spec_height(),
                    ix <= self.spec_width(),
                    row_start == self.spec_rows_text(iy as int),
                    out@ == row_start + self.spec_row_text(iy as int, ix as int),
                decreases self.spec_width() - ix,
            {
                proof {
                    assert(iy * self.spec_width() + ix < self.spec_height() * self.spec_width())
                        by (nonlinear_arith)
                        requires
                            0 <= ix < self.spec_width(),
                            0 <= iy < self.spec_height(),
                    ;
                    assert(self.spec_width() * self.spec_height() == self.spec_height()
                        * self.spec_width()) by (nonlinear_arith);
                }
                let i = iy * self.width + ix;
                let b = self.spin[i];
                if b {
                    out.append("1 ");
                } else {
                    out.append("-1 ");
                }
                proof {
                    reveal_strlit("1 ");
                    reveal_strlit("-1 ");
                    assert("1 "@ =~= seq!['1', ' ']);
                    assert("-1 "@ =~= seq!['-', '1', ' ']);
                    assert(out@ =~= row_start + self.spec_row_text(iy as int, ix + 1));
                }
                ix = ix + 1;
            }
            out.append("\n");
            proof {
                reveal_strlit("\n");
                assert("\n"@ =~= seq!['\n']);
                assert(out@ =~= self.spec_rows_text(iy + 1));
            }
            iy = iy + 1;
        }
        out.append("\n");
        proof {
            reveal_strlit("\n");
            assert("\n"@ =~= seq!['\n']);
            assert(out@ =~= self.spec_render());
        }
        out
    }

    /// Sum of all spin polarities (total magnetization).
    pub fn total_spin(&self) -> (t: i32)
        requires
            self.wf(),
        ensures
            t == spin_sum(self.spins()),
    {
        let n = self.spin.len();
        let mut t: i32 = 0;
        let mut i: usize = 0;
        while i < n
            invariant
                i <= n,
                n == self.spins().len(),
                self.wf(),
                t == spin_sum(self.spins().take(i as int)),
                -(i as int) <= t <= i as int,
            decreases n - i,
        {
            proof {
                let pre = self.spins().take(i as int);
                let post = self.spins().take(i + 1);
                assert(post.drop_last() =~= pre);
                assert(post.last() == self.spins()[i as int]);
                lemma_spin_sum_bound(pre);
            }
            if self.spin[i] {
                t = t + 1;
            } else {
                t = t - 1;
            }
            i = i + 1;
        }
        proof {
            assert(self.spins().take(n as int) =~= self.spins());
        }
        t
    }
}

} // verus!
