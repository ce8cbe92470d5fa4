//! The deterministic parts of the single-site heat-bath update: mapping a
//! random draw to a site, the four-neighbour spin sum that the flip-up
//! probability is computed from, and the final unconditional set.
//!
//! The probability itself, `exp(-e+) / (exp(-e+) + exp(-e-))` with
//! `e± = ∓(field + v·J)/temperature`, is floating-point work: the driver
//! computes it, compares it with one uniform draw, and hands the resulting
//! boolean to `heat_bath_apply`.

use crate::lattice::Lattice;
use vstd::prelude::*;

verus! {

/// The site that one uniform draw selects, once scaled to an integer
/// `r < width * height`: `x = r / height`, `y = r % height`.
pub open spec fn spec_site_from_draw(r: int, height: int) -> (int, int) {
    (r / height, r % height)
}

/// Maps a scaled random draw to 2-D site coordinates.  The same mapping
/// seeds both the heat-bath update and the Wolff cluster growth.
pub fn site_from_draw(r: usize, width: usize, height: usize) -> (p: (usize, usize))
    requires
        width > 0,
        height > 0,
        r < width * height,
    ensures
        (p.0 as int, p.1 as int) == spec_site_from_draw(r as int, height as int),
        p.0 < width,
        p.1 < height,
{
    proof {
        let ri = r as int;
        let hi = height as int;
        assert(ri / hi < width && ri % hi < hi) by (nonlinear_arith)
            requires
                hi > 0,
                width > 0,
                ri < width * hi,
        ;
    }
    (r / height, r % height)
}

/// Sum of the four toroidal-neighbour spin polarities of site `(x, y)`,
/// the `v` of the heat-bath rule.
pub fn neighbor_spin_sum(lat: &Lattice, x: usize, y: usize) -> (v: i32)
    requires
        lat.wf(),
        x < lat.spec_width(),
        y < lat.spec_height(),
    ensures
        v == lat.spec_spin_at(x + 1, y as int) + lat.spec_spin_at(x as int, y + 1)
            + lat.spec_spin_at(x - 1 + lat.spec_width(), y as int) + lat.spec_spin_at(
            x as int,
            y - 1 + lat.spec_height(),
        ),
        -4 <= v <= 4,
{
    let w = lat.width();
    let h = lat.height();
    proof {
        assert(lat.spec_width() <= i32::MAX && lat.spec_height() <= i32::MAX) by (nonlinear_arith)
            requires
                lat.spec_width() >= 1,
                lat.spec_height() >= 1,
                lat.spec_width() * lat.spec_height() <= i32::MAX,
        ;
    }
    let xp1 = (x + 1) % w;
    let yp1 = (y + 1) % h;
    let xm1 = (x + w - 1) % w;
    let ym1 = (y + h - 1) % h;
    proof {
        crate::lattice::lemma_mod_small(xp1 as int, w as int);
        crate::lattice::lemma_mod_small(yp1 as int, h as int);
        crate::lattice::lemma_mod_small(xm1 as int, w as int);
        crate::lattice::lemma_mod_small(ym1 as int, h as int);
    }
    lat.get_spin(xp1, y) + lat.get_spin(x, yp1) + lat.get_spin(xm1, y) + lat.get_spin(x, ym1)
}

/// Applies one heat-bath decision: the site selected by the draw mapping is
/// overwritten with polarity `up` — an unconditional set, not a flip, so a
/// site can be updated to its current value.  Every other site is untouched.
pub fn heat_bath_apply(lat: &mut Lattice, site_draw: usize, up: bool)
    requires
        old(lat).wf(),
        site_draw < old(lat).spec_width() * old(lat).spec_height(),
    ensures
        final(lat).wf(),
        final(lat).spec_width() == old(lat).spec_width(),
        final(lat).spec_height() == old(lat).spec_height(),
        final(lat).spins() == old(lat).spins().update(
            (site_draw as int % old(lat).spec_height()) * old(lat).spec_width() + site_draw as int
                / old(lat).spec_height(),
            up,
        ),
{
    let w = lat.width();
    let h = lat.height();
    let (x, y) = site_from_draw(site_draw, w, h);
    lat.set_spin(x, y, up);
}

} // verus!
