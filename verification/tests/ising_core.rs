//! Runtime tests for the Ising core: determinism, cluster laws, boundary
//! behaviour, observables, the heat-bath scenario, and the pair parser.

use ising::cluster::{flip_cluster, ClusterBuilder};
use ising::lattice::Lattice;
use ising::parse::parse_number_pair;
use ising::update::{heat_bath_apply, neighbor_spin_sum, site_from_draw};

const COUPLING_J: f64 = 1.0;

/// A deterministic uniform source in [0, 1), constructed from four integer
/// seeds; same seeds and same call sequence give the same values.
struct SeededUniform {
    state: u64,
}

impl SeededUniform {
    fn new(i: u64, j: u64, k: u64, l: u64) -> SeededUniform {
        let state = i
            .wrapping_mul(0x9E37_79B9_7F4A_7C15)
            .wrapping_add(j.wrapping_mul(0xBF58_476D_1CE4_E5B9))
            .wrapping_add(k.wrapping_mul(0x94D0_49BB_1331_11EB))
            .wrapping_add(l)
            | 1;
        SeededUniform { state }
    }

    fn uni(&mut self) -> f64 {
        self.state = self
            .state
            .wrapping_mul(6364136223846793005)
            .wrapping_add(1442695040888963407);
        ((self.state >> 11) as f64) / ((1u64 << 53) as f64)
    }
}

fn heat_bath_prob(lat: &Lattice, x: usize, y: usize, temperature: f64, coupling_h: f64) -> f64 {
    let v = neighbor_spin_sum(lat, x, y);
    let ep = -(coupling_h + v as f64 * COUPLING_J) / temperature;
    let em = -ep;
    (-ep).exp() / ((-ep).exp() + (-em).exp())
}

fn heat_bath_update(lat: &mut Lattice, rng: &mut SeededUniform, temp: f64, coupling_h: f64) {
    let n = lat.width() * lat.height();
    let draw = (rng.uni() * n as f64) as usize;
    let (x, y) = site_from_draw(draw, lat.width(), lat.height());
    let up = heat_bath_prob(lat, x, y, temp, coupling_h) > rng.uni();
    heat_bath_apply(lat, draw, up);
}

fn make_cluster(lat: &Lattice, rng: &mut SeededUniform, temperature: f64) -> (i32, Vec<(usize, usize)>) {
    let n = lat.width() * lat.height();
    let draw = (rng.uni() * n as f64) as usize;
    let mut cb = ClusterBuilder::new(lat, draw);
    let prob = 1.0 - (-2.0 * COUPLING_J / temperature).exp();
    while cb.advance(lat) {
        let join = rng.uni() < prob;
        cb.resolve(lat, join);
    }
    cb.into_parts()
}

fn wolff_update(lat: &mut Lattice, rng: &mut SeededUniform, temperature: f64, coupling_h: f64) {
    let (cspin, members) = make_cluster(lat, rng, temperature);
    let metropolis = rng.uni();
    if (-2.0 / temperature * coupling_h * cspin as f64 * members.len() as f64).exp() > metropolis {
        flip_cluster(lat, &members);
    }
}

fn scramble(lat: &mut Lattice, rng: &mut SeededUniform, iters: usize) {
    for _ in 0..iters {
        heat_bath_update(lat, rng, 2.3, 0.0);
    }
}

#[test]
fn new_lattice_fully_polarized() {
    let lat = Lattice::new(5, 3);
    assert_eq!(lat.width(), 5);
    assert_eq!(lat.height(), 3);
    for y in 0..3 {
        for x in 0..5 {
            assert_eq!(lat.get_spin(x, y), 1);
        }
    }
    assert_eq!(lat.total_spin(), 15);
}

#[test]
fn determinism_heat_bath() {
    let mut a = Lattice::new(8, 6);
    let mut b = Lattice::new(8, 6);
    let mut ra = SeededUniform::new(12, 34, 56, 78);
    let mut rb = SeededUniform::new(12, 34, 56, 78);
    for _ in 0..300 {
        heat_bath_update(&mut a, &mut ra, 2.3, 0.1);
        heat_bath_update(&mut b, &mut rb, 2.3, 0.1);
    }
    assert_eq!(a.render(), b.render());
    assert_eq!(a.total_spin(), b.total_spin());
}

#[test]
fn determinism_wolff() {
    let mut a = Lattice::new(6, 6);
    let mut b = Lattice::new(6, 6);
    let mut ra = SeededUniform::new(1, 2, 3, 4);
    let mut rb = SeededUniform::new(1, 2, 3, 4);
    for _ in 0..60 {
        wolff_update(&mut a, &mut ra, 2.3, 0.1);
        wolff_update(&mut b, &mut rb, 2.3, 0.1);
    }
    assert_eq!(a.render(), b.render());
}

#[test]
fn cluster_uniqueness() {
    let mut lat = Lattice::new(7, 5);
    let mut rng = SeededUniform::new(9, 8, 7, 6);
    scramble(&mut lat, &mut rng, 150);
    for _ in 0..20 {
        let (_, members) = make_cluster(&lat, &mut rng, 2.3);
        for i in 0..members.len() {
            for j in 0..i {
                assert_ne!(members[i], members[j]);
            }
        }
    }
}

#[test]
fn cluster_spin_homogeneity() {
    let mut lat = Lattice::new(7, 5);
    let mut rng = SeededUniform::new(5, 4, 3, 2);
    scramble(&mut lat, &mut rng, 150);
    for _ in 0..20 {
        let (cspin, members) = make_cluster(&lat, &mut rng, 2.3);
        assert!(cspin == 1 || cspin == -1);
        for &(x, y) in members.iter() {
            assert_eq!(lat.get_spin(x, y), cspin);
        }
    }
}

#[test]
fn flip_idempotence() {
    let mut lat = Lattice::new(6, 6);
    let mut rng = SeededUniform::new(11, 22, 33, 44);
    scramble(&mut lat, &mut rng, 100);
    let (_, members) = make_cluster(&lat, &mut rng, 1.5);
    let before = lat.render();
    flip_cluster(&mut lat, &members);
    assert_ne!(lat.render(), before);
    flip_cluster(&mut lat, &members);
    assert_eq!(lat.render(), before);
}

#[test]
fn boundary_wraparound() {
    let mut lat = Lattice::new(5, 4);
    let mut rng = SeededUniform::new(2, 4, 6, 8);
    scramble(&mut lat, &mut rng, 120);
    for y in 0..4 {
        assert_eq!(lat.get_spin(5, y), lat.get_spin(0, y));
    }
    for x in 0..5 {
        assert_eq!(lat.get_spin(x, 4), lat.get_spin(x, 0));
    }
}

#[test]
fn magnetization_bound() {
    let mut lat = Lattice::new(6, 5);
    let mut rng = SeededUniform::new(3, 1, 4, 1);
    for _ in 0..200 {
        heat_bath_update(&mut lat, &mut rng, 1.7, 0.2);
        let t = lat.total_spin();
        assert!(-30 <= t && t <= 30);
    }
    for _ in 0..40 {
        wolff_update(&mut lat, &mut rng, 1.7, 0.2);
        let t = lat.total_spin();
        assert!(-30 <= t && t <= 30);
    }
}

#[test]
fn heat_bath_scenario_first_site() {
    // 4x4 all +1, temperature 2.3, no field: the one site the first update
    // may change is the one the documented mapping picks from the first draw.
    let mut lat = Lattice::new(4, 4);
    let mut rng = SeededUniform::new(12, 34, 56, 78);
    let mut shadow = SeededUniform::new(12, 34, 56, 78);

    let u0 = shadow.uni();
    let r = (u0 * 16.0) as usize;
    let (ex, ey) = (r / 4, r % 4);
    // all neighbours +1, field 0: p = exp(4/2.3) / (exp(4/2.3) + exp(-4/2.3))
    let ep = -(0.0 + 4.0 * COUPLING_J) / 2.3;
    let p = (-ep).exp() / ((-ep).exp() + (ep).exp());
    let u1 = shadow.uni();
    let expected = if p > u1 { 1 } else { -1 };

    heat_bath_update(&mut lat, &mut rng, 2.3, 0.0);
    for y in 0..4 {
        for x in 0..4 {
            if (x, y) == (ex, ey) {
                assert_eq!(lat.get_spin(x, y), expected);
            } else {
                assert_eq!(lat.get_spin(x, y), 1);
            }
        }
    }
}

#[test]
fn seed_only_cluster_is_legal() {
    // Corner seed on a 3x3 all-+1 lattice; when every bond draw fails (the
    // p_add -> 0 limit of a large temperature) the cluster is just the seed.
    let lat = Lattice::new(3, 3);
    let mut cb = ClusterBuilder::new(&lat, 0);
    while cb.advance(&lat) {
        cb.resolve(&lat, false);
    }
    let (cspin, members) = cb.into_parts();
    assert_eq!(cspin, 1);
    assert_eq!(members.len(), 1);
    assert_eq!(members[0], (0, 0));
}

#[test]
fn total_spin_exact() {
    let mut lat = Lattice::new(3, 2);
    lat.set_spin(1, 0, false);
    lat.set_spin(2, 1, false);
    assert_eq!(lat.total_spin(), 2);
}

#[test]
fn interaction_sum_exact() {
    let mut lat = Lattice::new(2, 2);
    assert_eq!(lat.interaction_sum(), 8);
    lat.set_spin(0, 0, false);
    assert_eq!(lat.interaction_sum(), 0);
}

#[test]
fn action_formula_from_parts() {
    // action = (J * interaction_sum + field * total_spin) / -temperature
    let lat = Lattice::new(2, 2);
    let inter = lat.interaction_sum() as f64;
    let total = lat.total_spin() as f64;
    let action = (inter * COUPLING_J + total * 0.1) / -2.0;
    assert!((action - (-4.2)).abs() < 1e-12);
}

#[test]
fn render_format() {
    let mut lat = Lattice::new(2, 2);
    lat.set_spin(1, 0, false);
    assert_eq!(lat.render(), "1 -1 \n1 1 \n\n");
}

#[test]
fn parse_pair_accepts_numbers() {
    assert_eq!(parse_number_pair("750,600", ','), Ok((750, 600)));
    assert_eq!(parse_number_pair("1,2", ','), Ok((1, 2)));
    assert_eq!(parse_number_pair("+5,7", ','), Ok((5, 7)));
    assert_eq!(
        parse_number_pair("18446744073709551615,0", ','),
        Ok((usize::MAX, 0))
    );
    assert_eq!(parse_number_pair("3x4", 'x'), Ok((3, 4)));
}

#[test]
fn parse_pair_rejects_bad_shape() {
    let fmt_err: Result<(usize, usize), &str> = Err("Invalid format. Use NUMBER1,NUMBER2");
    assert_eq!(parse_number_pair("123", ','), fmt_err);
    assert_eq!(parse_number_pair("1,2,3", ','), fmt_err);
    assert_eq!(parse_number_pair("", ','), fmt_err);
}

#[test]
fn parse_pair_rejects_bad_numbers() {
    let num_err: Result<(usize, usize), &str> = Err("Invalid number");
    assert_eq!(parse_number_pair("a,2", ','), num_err);
    assert_eq!(parse_number_pair("1,", ','), num_err);
    assert_eq!(parse_number_pair(",5", ','), num_err);
    assert_eq!(parse_number_pair("-3,5", ','), num_err);
    assert_eq!(parse_number_pair("18446744073709551616,1", ','), num_err);
}

#[test]
fn wolff_zero_field_phase_behavior() {
    // Statistical sanity for zero-field Wolff updating: well below the
    // critical temperature (about 2.269) the lattice stays strongly
    // magnetized; well above it the average |magnetization| is markedly
    // smaller.  Deterministic seeds keep the outcome reproducible.
    fn avg_abs_m(temp: f64) -> f64 {
        let mut lat = Lattice::new(12, 12);
        let mut rng = SeededUniform::new(12, 34, 56, 78);
        for _ in 0..100 {
            wolff_update(&mut lat, &mut rng, temp, 0.0);
        }
        let iters = 400;
        let mut acc = 0.0;
        for _ in 0..iters {
            wolff_update(&mut lat, &mut rng, temp, 0.0);
            acc += (lat.total_spin() as f64 / 144.0).abs();
        }
        acc / iters as f64
    }
    let cold = avg_abs_m(1.5);
    let hot = avg_abs_m(4.0);
    assert!(cold > 0.85, "cold phase magnetization {cold}");
    assert!(hot < 0.6, "hot phase magnetization {hot}");
}
