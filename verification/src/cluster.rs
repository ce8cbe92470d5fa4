//! Wolff cluster growth and flipping.
//!
//! The builder grows a connected same-spin cluster by randomized bond
//! activation, as a worklist scan: members are processed in join order, and
//! each of a member's four toroidal neighbours joins iff it carries the
//! reference spin, is still eligible, and one independent uniform draw falls
//! below the bond probability `1 - exp(-2·J/temperature)`.  That probability
//! and the Wolff acceptance test `exp(-2/T · field · spin · size) > draw`
//! are floating-point work: the driver makes each draw, compares, and feeds
//! the resulting boolean back in, so the growth logic itself is verified for
//! every possible sequence of decisions.
//!
//! The field-correction acceptance test is an approximation bolted onto the
//! rigorous zero-field cluster algorithm; its statistical correctness for a
//! non-zero field is a known caveat, and its literal behaviour is kept.

use crate::lattice::Lattice;
use vstd::prelude::*;

verus! {

/// Linear index of a site in row-major storage.
pub open spec fn lin(p: (usize, usize), width: int) -> int {
    p.1 * width + p.0
}

/// No coordinate appears twice in the member list (cluster uniqueness).
pub open spec fn members_unique(ms: Seq<(usize, usize)>) -> bool {
    forall|i: int, j: int| 0 <= i < j < ms.len() ==> ms[i] != ms[j]
}

/// Every member lies inside a width-by-height grid.
pub open spec fn members_in_bounds(ms: Seq<(usize, usize)>, width: int, height: int) -> bool {
    forall|i: int| 0 <= i < ms.len() ==> (#[trigger] ms[i]).0 < width && ms[i].1 < height
}

/// Every member carries the cluster's reference spin (spin homogeneity).
pub open spec fn members_homogeneous(lat: Lattice, ms: Seq<(usize, usize)>, ref_spin: int) -> bool {
    forall|i: int|
        0 <= i < ms.len() ==> lat.spec_spin_at(
            (#[trigger] ms[i]).0 as int,
            ms[i].1 as int,
        ) == ref_spin
}

/// The `j`-th toroidal neighbour (+x, +y, -x, -y in that order) of a site.
pub open spec fn spec_neighbor(p: (usize, usize), j: int, width: int, height: int) -> (int, int) {
    if j == 0 {
        ((p.0 + 1) % width, p.1 as int)
    } else if j == 1 {
        (p.0 as int, (p.1 + 1) % height)
    } else if j == 2 {
        ((p.0 - 1 + width) % width, p.1 as int)
    } else {
        (p.0 as int, (p.1 - 1 + height) % height)
    }
}

/// Computes one toroidal neighbour of an in-bounds site.
fn neighbor_site(p: (usize, usize), jj: usize, w: usize, h: usize) -> (c: (usize, usize))
    requires
        0 < w <= i32::MAX,
        0 < h <= i32::MAX,
        p.0 < w,
        p.1 < h,
        jj < 4,
    ensures
        (c.0 as int, c.1 as int) == spec_neighbor(p, jj as int, w as int, h as int),
        c.0 < w,
        c.1 < h,
{
    if jj == 0 {
        ((p.0 + 1) % w, p.1)
    } else if jj == 1 {
        (p.0, (p.1 + 1) % h)
    } else if jj == 2 {
        ((p.0 + w - 1) % w, p.1)
    } else {
        (p.0, (p.1 + h - 1) % h)
    }
}

/// Grows one Wolff cluster on a fixed lattice.
///
/// The caller drives it: `advance` scans to the next neighbour that needs a
/// bond draw, and `resolve` reports the draw's outcome.  The lattice must
/// not change between those calls; the flip, if accepted, comes afterwards.
pub struct ClusterBuilder {
    members: Vec<(usize, usize)>,
    eligible: Vec<bool>,
    k: usize,
    j: usize,
    ref_spin: i32,
}

impl ClusterBuilder {
    /// Member coordinates, in join order; the seed comes first.
    pub closed spec fn members_view(&self) -> Seq<(usize, usize)> {
        self.members@
    }

    /// The lattice-wide eligibility marker: a site is eligible until it
    /// joins the cluster.
    pub closed spec fn eligible_view(&self) -> Seq<bool> {
        self.eligible@
    }

    /// The seed site's spin at construction: the cluster's reference spin.
    pub closed spec fn spec_ref_spin(&self) -> int {
        self.ref_spin as int
    }

    /// Index of the member whose neighbours are being examined.
    pub closed spec fn cursor_member(&self) -> int {
        self.k as int
    }

    /// Which of that member's four neighbours is next.
    pub closed spec fn cursor_slot(&self) -> int {
        self.j as int
    }

    /// Every member has been processed: the cluster is complete.
    pub open spec fn done(&self) -> bool {
        self.cursor_member() == self.members_view().len()
    }

    /// The neighbour the scan currently stands on.
    pub open spec fn spec_candidate(&self, lat: Lattice) -> (int, int) {
        spec_neighbor(
            self.members_view()[self.cursor_member()],
            self.cursor_slot(),
            lat.spec_width(),
            lat.spec_height(),
        )
    }

    /// Whether the neighbour at scan position `(k, j)` carries the
    /// reference spin and is still eligible — i.e. needs a bond draw.
    pub open spec fn candidate_at(&self, lat: Lattice, k: int, j: int) -> bool {
        let c = spec_neighbor(
            self.members_view()[k],
            j,
            lat.spec_width(),
            lat.spec_height(),
        );
        &&& 0 <= k < self.members_view().len()
        &&& 0 <= j < 4
        &&& lat.spec_spin_at(c.0, c.1) == self.spec_ref_spin()
        &&& self.eligible_view()[c.1 * lat.spec_width() + c.0]
    }

    /// The scan stands on a neighbour that carries the reference spin and is
    /// still eligible: one bond draw decides whether it joins.
    pub open spec fn has_candidate(&self, lat: Lattice) -> bool {
        self.candidate_at(lat, self.cursor_member(), self.cursor_slot())
    }

    /// Linear order of scan positions: member index first, neighbour second.
    pub open spec fn cursor_index(k: int, j: int) -> int {
        4 * k + j
    }

    /// Where the scan stands, in that linear order.
    pub open spec fn spec_cursor(&self) -> int {
        Self::cursor_index(self.cursor_member(), self.cursor_slot())
    }

    /// Invariant tying the builder to the lattice it grows on.
    pub open spec fn inv(&self, lat: Lattice) -> bool {
        &&& lat.wf()
        &&& self.eligible_view().len() == lat.spins().len()
        &&& self.members_view().len() >= 1
        &&& 0 <= self.cursor_member() <= self.members_view().len()
        &&& 0 <= self.cursor_slot() < 4
        &&& (self.spec_ref_spin() == 1 || self.spec_ref_spin() == -1)
        &&& members_in_bounds(self.members_view(), lat.spec_width(), lat.spec_height())
        &&& members_homogeneous(lat, self.members_view(), self.spec_ref_spin())
        &&& members_unique(self.members_view())
        &&& forall|i: int|
            0 <= i < self.members_view().len() ==> 0 <= lin(
                #[trigger] self.members_view()[i],
                lat.spec_width(),
            ) < self.eligible_view().len()
        &&& forall|i: int|
            0 <= i < self.members_view().len() ==> !self.eligible_view()[lin(
                #[trigger] self.members_view()[i],
                lat.spec_width(),
            )]
    }

    /// Starts a cluster at the seed site the draw selects: the seed is the
    /// first member, fixes the reference spin, and is marked ineligible.
    pub fn new(lat: &Lattice, seed_draw: usize) -> (cb: ClusterBuilder)
        requires
            lat.wf(),
            seed_draw < lat.spec_width() * lat.spec_height(),
        ensures
            cb.inv(*lat),
            cb.members_view().len() == 1,
            (cb.members_view()[0].0 as int, cb.members_view()[0].1 as int)
                == crate::update::spec_site_from_draw(seed_draw as int, lat.spec_height()),
            cb.spec_ref_spin() == lat.spec_spin_at(
                cb.members_view()[0].0 as int,
                cb.members_view()[0].1 as int,
            ),
            cb.cursor_member() == 0 && cb.cursor_slot() == 0,
            !cb.done(),
            forall|t: int|
                0 <= t < cb.eligible_view().len() ==> cb.eligible_view()[t] == (t != lin(
                    cb.members_view()[0],
                    lat.spec_width(),
                )),
    {
        let w = lat.width();
        let h = lat.height();
        let (sx, sy) = crate::update::site_from_draw(seed_draw, w, h);
        let n = w * h;
        let mut eligible: Vec<bool> = Vec::new();
        let mut i: usize = 0;
        while i < n
            invariant
                i <= n,
                eligible@.len() == i,
                forall|t: int| 0 <= t < i ==> eligible@[t] == true,
            decreases n - i,
        {
            eligible.push(true);
            i = i + 1;
        }
        proof {
            assert(sy * w + sx < h * w) by (nonlinear_arith)
                requires
                    sx < w,
                    sy < h,
            ;
            assert(w as int * h as int == h as int * w as int) by (nonlinear_arith);
        }
        let si = sy * w + sx;
        eligible.set(si, false);
        let mut members: Vec<(usize, usize)> = Vec::new();
        members.push((sx, sy));
        let ref_spin = lat.get_spin(sx, sy);
        proof {
            crate::lattice::lemma_mod_small(sx as int, w as int);
            crate::lattice::lemma_mod_small(sy as int, h as int);
        }
        ClusterBuilder { members, eligible, k: 0, j: 0, ref_spin }
    }

    /// Scans forward to the next neighbour that needs a bond draw and
    /// reports whether one is pending; `false` means the worklist is
    /// exhausted and the cluster is complete.  Nothing else changes.
    #[verifier::loop_isolation(false)]
    pub fn advance(&mut self, lat: &Lattice) -> (pending: bool)
        requires
            old(self).inv(*lat),
        ensures
            final(self).inv(*lat),
            final(self).members_view() == old(self).members_view(),
            final(self).eligible_view() == old(self).eligible_view(),
            final(self).spec_ref_spin() == old(self).spec_ref_spin(),
            pending == final(self).has_candidate(*lat),
            !pending ==> final(self).done(),
            old(self).spec_cursor() <= final(self).spec_cursor(),
            forall|k: int, j: int|
                0 <= j < 4 && old(self).spec_cursor() <= Self::cursor_index(k, j)
                    < final(self).spec_cursor() ==> !old(self).candidate_at(*lat, k, j),
    {
        let w = lat.width();
        let h = lat.height();
        proof {
            assert(lat.spec_width() <= i32::MAX && lat.spec_height() <= i32::MAX)
                by (nonlinear_arith)
                requires
                    lat.spec_width() >= 1,
                    lat.spec_height() >= 1,
                    lat.spec_width() * lat.spec_height() <= i32::MAX,
            ;
        }
        let ghost orig = *self;
        while self.k < self.members.len()
            invariant
                self.inv(*lat),
                self.members_view() == orig.members_view(),
                self.eligible_view() == orig.eligible_view(),
                self.spec_ref_spin() == orig.spec_ref_spin(),
                w == lat.spec_width(),
                h == lat.spec_height(),
                0 < w <= i32::MAX,
                0 < h <= i32::MAX,
                orig.spec_cursor() <= self.spec_cursor(),
                forall|k2: int, j2: int|
                    0 <= j2 < 4 && orig.spec_cursor() <= Self::cursor_index(k2, j2)
                        < self.spec_cursor() ==> !orig.candidate_at(*lat, k2, j2),
            decreases 4 * (self.members_view().len() - self.cursor_member()) - self.cursor_slot(),
        {
            let p = self.members[self.k];
            let c = neighbor_site(p, self.j, w, h);
            proof {
                assert(c.1 * w + c.0 < h * w) by (nonlinear_arith)
                    requires
                        c.1 < h,
                        c.0 < w,
                        0 < w,
                ;
                assert(w as int * h as int == h as int * w as int) by (nonlinear_arith);
            }
            let cl = c.1 * w + c.0;
            if lat.get_spin(c.0, c.1) == self.ref_spin && self.eligible[cl] {
                proof {
                    crate::lattice::lemma_mod_small(c.0 as int, w as int);
                    crate::lattice::lemma_mod_small(c.1 as int, h as int);
                }
                return true;
            }
            let ghost pk = self.cursor_member();
            let ghost pj = self.cursor_slot();
            let ghost prev_cursor = self.spec_cursor();
            proof {
                assert(!orig.candidate_at(*lat, pk, pj));
            }
            if self.j == 3 {
                self.j = 0;
                self.k = self.k + 1;
            } else {
                self.j = self.j + 1;
            }
            proof {
                assert(self.spec_cursor() == prev_cursor + 1);
                assert forall|k2: int, j2: int|
                    0 <= j2 < 4 && orig.spec_cursor() <= Self::cursor_index(k2, j2)
                        < self.spec_cursor() implies !orig.candidate_at(*lat, k2, j2) by {
                    if Self::cursor_index(k2, j2) == prev_cursor {
                        assert(4 * k2 + j2 == 4 * pk + pj);
                        assert(k2 == pk && j2 == pj);
                    }
                }
            }
        }
        false
    }

    /// Applies the caller's bond decision to the pending candidate: on
    /// `join` the candidate is appended and marked ineligible; either way
    /// the scan moves past it.
    pub fn resolve(&mut self, lat: &Lattice, join: bool)
        requires
            old(self).inv(*lat),
            old(self).has_candidate(*lat),
        ensures
            final(self).inv(*lat),
            final(self).spec_ref_spin() == old(self).spec_ref_spin(),
            final(self).members_view() == if join {
                old(self).members_view().push(
                    (
                        old(self).spec_candidate(*lat).0 as usize,
                        old(self).spec_candidate(*lat).1 as usize,
                    ),
                )
            } else {
                old(self).members_view()
            },
            join ==> final(self).eligible_view() == old(self).eligible_view().update(
                old(self).spec_candidate(*lat).1 * lat.spec_width() + old(self).spec_candidate(
                    *lat,
                ).0,
                false,
            ),
            !join ==> final(self).eligible_view() == old(self).eligible_view(),
            final(self).spec_cursor() == old(self).spec_cursor() + 1,
    {
        let w = lat.width();
        let h = lat.height();
        proof {
            assert(lat.spec_width() <= i32::MAX && lat.spec_height() <= i32::MAX)
                by (nonlinear_arith)
                requires
                    lat.spec_width() >= 1,
                    lat.spec_height() >= 1,
                    lat.spec_width() * lat.spec_height() <= i32::MAX,
            ;
        }
        let p = self.members[self.k];
        let c = neighbor_site(p, self.j, w, h);
        if join {
            proof {
                assert(c.1 * w + c.0 < h * w) by (nonlinear_arith)
                    requires
                        c.1 < h,
                        c.0 < w,
                        0 < w,
                ;
                assert(w as int * h as int == h as int * w as int) by (nonlinear_arith);
                crate::lattice::lemma_mod_small(c.0 as int, w as int);
                crate::lattice::lemma_mod_small(c.1 as int, h as int);
            }
            let cl = c.1 * w + c.0;
            proof {
                let ms = self.members_view();
                assert forall|i: int| 0 <= i < ms.len() implies ms[i] != c by {
                    if ms[i] == c {
                        assert(!self.eligible_view()[lin(ms[i], w as int)]);
                    }
                }
            }
            self.eligible.set(cl, false);
            self.members.push(c);
            proof {
                let wi = lat.spec_width();
                let oldms = old(self).members_view();
                let newms = self.members_view();
                assert(newms == oldms.push(c));
                assert(newms[oldms.len() as int] == c);
                assert forall|i: int| 0 <= i < newms.len() implies {
                    &&& (#[trigger] newms[i]).0 < wi
                    &&& newms[i].1 < lat.spec_height()
                    &&& 0 <= lin(newms[i], wi) < self.eligible_view().len()
                    &&& !self.eligible_view()[lin(newms[i], wi)]
                    &&& lat.spec_spin_at(newms[i].0 as int, newms[i].1 as int)
                        == self.spec_ref_spin()
                } by {
                    if i < oldms.len() {
                        assert(newms[i] == oldms[i]);
                        assert(!old(self).eligible_view()[lin(oldms[i], wi)]);
                    } else {
                        assert(newms[i] == c);
                    }
                }
                assert forall|i: int, i2: int| 0 <= i < i2 < newms.len() implies newms[i]
                    != newms[i2] by {
                    if i2 < oldms.len() {
                        assert(oldms[i] != oldms[i2]);
                    } else {
                        assert(newms[i] == oldms[i] && newms[i2] == c);
                    }
                }
            }
        }
        let len = self.members.len();
        proof {
            assert(old(self).cursor_member() < old(self).members_view().len());
            assert(self.k < len);
        }
        if self.j == 3 {
            self.j = 0;
            self.k = self.k + 1;
        } else {
            self.j = self.j + 1;
        }
    }

    /// True once every member's neighbours have been examined.
    pub fn is_done(&self) -> (b: bool)
        ensures
            b == self.done(),
    {
        self.k == self.members.len()
    }

    /// The cluster's reference spin, +1 or -1.
    pub fn ref_spin(&self) -> (s: i32)
        ensures
            s == self.spec_ref_spin(),
    {
        self.ref_spin
    }

    /// The member coordinates, in join order.
    pub fn members(&self) -> (ms: &Vec<(usize, usize)>)
        ensures
            ms@ == self.members_view(),
    {
        &self.members
    }

    /// Hands out the finished cluster: its reference spin and its members.
    pub fn into_parts(self) -> (r: (i32, Vec<(usize, usize)>))
        ensures
            r.0 == self.spec_ref_spin(),
            r.1@ == self.members_view(),
    {
        (self.ref_spin, self.members)
    }
}

/// Whether some member of `ms` occupies linear site `t`.
pub open spec fn covers(ms: Seq<(usize, usize)>, width: int, t: int) -> bool {
    exists|i: int| 0 <= i < ms.len() && lin(#[trigger] ms[i], width) == t
}

/// The configuration with every site covered by `ms` flipped once.
pub open spec fn flip_sites(s: Seq<bool>, ms: Seq<(usize, usize)>, width: int) -> Seq<bool> {
    Seq::new(
        s.len(),
        |t: int|
            if covers(ms, width, t) {
                !s[t]
            } else {
                s[t]
            },
    )
}

/// Flip idempotence: flipping the same member list twice restores the
/// original configuration.
pub proof fn lemma_flip_twice(s: Seq<bool>, ms: Seq<(usize, usize)>, width: int)
    ensures
        flip_sites(flip_sites(s, ms, width), ms, width) == s,
{
    assert(flip_sites(flip_sites(s, ms, width), ms, width) =~= s);
}

/// Two in-bounds sites with the same linear index are the same site.
proof fn lemma_lin_injective(p: (usize, usize), q: (usize, usize), width: int)
    requires
        0 < width,
        p.0 < width,
        q.0 < width,
        lin(p, width) == lin(q, width),
    ensures
        p == q,
{
    assert(p.1 == q.1 && p.0 == q.0) by (nonlinear_arith)
        requires
            0 < width,
            0 <= p.0 < width,
            0 <= q.0 < width,
            0 <= p.1,
            0 <= q.1,
            p.1 * width + p.0 == q.1 * width + q.0,
    ;
}

/// Flips every member site exactly once (the accepted Wolff move): covered
/// sites are inverted, every other site is untouched.
#[verifier::loop_isolation(false)]
pub fn flip_cluster(lat: &mut Lattice, ms: &Vec<(usize, usize)>)
    requires
        old(lat).wf(),
        members_unique(ms@),
        members_in_bounds(ms@, old(lat).spec_width(), old(lat).spec_height()),
    ensures
        final(lat).wf(),
        final(lat).spec_width() == old(lat).spec_width(),
        final(lat).spec_height() == old(lat).spec_height(),
        final(lat).spins() == flip_sites(old(lat).spins(), ms@, old(lat).spec_width()),
{
    let ghost orig = *lat;
    let ghost w = orig.spec_width();
    let n = ms.len();
    let mut i: usize = 0;
    while i < n
        invariant
            i <= n,
            lat.wf(),
            lat.spec_width() == orig.spec_width(),
            lat.spec_height() == orig.spec_height(),
            lat.spins() == flip_sites(orig.spins(), ms@.take(i as int), w),
        decreases n - i,
    {
        let (x, y) = ms[i];
        let ghost pre = ms@.take(i as int);
        let ghost post = ms@.take(i + 1);
        let ghost prev = lat.spins();
        let ghost li = lin(ms@[i as int], w);
        proof {
            assert(0 <= li < orig.spins().len()) by {
                assert(ms@[i as int].1 * w + ms@[i as int].0 < orig.spec_height() * w)
                    by (nonlinear_arith)
                    requires
                        ms@[i as int].0 < w,
                        ms@[i as int].1 < orig.spec_height(),
                        0 < w,
                ;
                assert(w * orig.spec_height() == orig.spec_height() * w) by (nonlinear_arith);
            }
        }
        lat.flip_spin(x, y);
        proof {
            assert(lat.spins() == prev.update(li, !prev[li]));
            assert(post[i as int] == ms@[i as int]);
            assert forall|t: int| 0 <= t < orig.spins().len() implies lat.spins()[t] == flip_sites(
                orig.spins(),
                post,
                w,
            )[t] by {
                if t == li {
                    assert(covers(post, w, li)) by {
                        assert(lin(post[i as int], w) == li);
                    }
                    if covers(pre, w, li) {
                        let i0 = choose|i0: int|
                            0 <= i0 < pre.len() && lin(#[trigger] pre[i0], w) == li;
                        assert(pre[i0] == ms@[i0]);
                        lemma_lin_injective(ms@[i0], ms@[i as int], w);
                        assert(false);
                    }
                    assert(prev[li] == orig.spins()[li]);
                } else {
                    if covers(pre, w, t) {
                        let i0 = choose|i0: int|
                            0 <= i0 < pre.len() && lin(#[trigger] pre[i0], w) == t;
                        assert(lin(post[i0], w) == t);
                        assert(covers(post, w, t));
                    }
                    if covers(post, w, t) {
                        let i0 = choose|i0: int|
                            0 <= i0 < post.len() && lin(#[trigger] post[i0], w) == t;
                        assert(i0 < pre.len());
                        assert(lin(pre[i0], w) == t);
                        assert(covers(pre, w, t));
                    }
                }
            }
            assert(lat.spins() =~= flip_sites(orig.spins(), post, w));
        }
        i = i + 1;
    }
    proof {
        assert(ms@.take(n as int) =~= ms@);
    }
}

} // verus!
