use rpso::fixed::{fx_mul, sample_in, UNIT};
use rpso::objective::{Objective, Sphere};
use rpso::particle::Particle;
use rpso::pso::{PsoError, PSO};
use rpso::rand_source::StdRandom;
use rpso::rng::{Lcg, RandomSource};

fn sphere_of(pos: &Vec<i64>) -> i64 {
    Sphere {}.eval(pos).expect("sphere value must be representable here")
}

#[test]
fn unit_is_a_million() {
    assert_eq!(UNIT, 1_000_000);
}

#[test]
fn fx_mul_exact_values() {
    // 2.5 * 2.0 == 5.0
    assert_eq!(fx_mul(2_500_000, 2_000_000), Some(5_000_000));
    // -1.5 * 2.0 == -3.0
    assert_eq!(fx_mul(-1_500_000, 2_000_000), Some(-3_000_000));
    // rounding is toward zero from both sides
    assert_eq!(fx_mul(-1, 1), Some(0));
    assert_eq!(fx_mul(1, 1), Some(0));
    // overflow is reported, not wrapped
    assert_eq!(fx_mul(i64::MAX, i64::MAX), None);
}

#[test]
fn sample_in_exact_values() {
    // the middle draw lands in the middle of a symmetric range
    assert_eq!(sample_in(-5_120_000, 5_120_000, 500_000), 0);
    // the zero draw lands on the lower bound
    assert_eq!(sample_in(-5_120_000, 5_120_000, 0), -5_120_000);
    // every draw stays below the upper bound
    assert_eq!(sample_in(0, 1_000_000, 999_999), 999_999);
}

#[test]
fn sphere_exact_value() {
    // 1.0^2 + 2.0^2 == 5.0
    let pos: Vec<i64> = vec![1_000_000, 2_000_000];
    assert_eq!(Sphere {}.eval(&pos), Some(5_000_000));
    let empty: Vec<i64> = vec![];
    assert_eq!(Sphere {}.eval(&empty), Some(0));
    // squares overflow the representable range
    let huge: Vec<i64> = vec![i64::MAX - 1];
    assert_eq!(Sphere {}.eval(&huge), None);
}

#[test]
fn particle_new_is_zeroed() {
    let p = Particle::new(4);
    assert_eq!(p.position, vec![0i64; 4]);
    assert_eq!(p.velocity, vec![0i64; 4]);
    assert_eq!(p.best, vec![0i64; 4]);
    assert_eq!(p.fitness, 0);
    assert_eq!(p.best_fitness, 0);
}

#[test]
fn lcg_streams_are_replayable() {
    let mut a = Lcg::new(42);
    let mut b = Lcg::new(42);
    for _ in 0..100 {
        let x = a.next_unit();
        let y = b.next_unit();
        assert_eq!(x, y);
        assert!(0 <= x && x < UNIT);
    }
    let mut c = Lcg::new(43);
    let mut differs = false;
    let mut d = Lcg::new(42);
    for _ in 0..100 {
        if c.next_unit() != d.next_unit() {
            differs = true;
        }
    }
    assert!(differs);
}

#[test]
fn std_random_draws_stay_in_range() {
    let mut s = StdRandom::from_seed(7);
    let mut all_zero = true;
    for _ in 0..200 {
        let x = s.next_unit();
        assert!(0 <= x && x < UNIT);
        if x != 0 {
            all_zero = false;
        }
    }
    assert!(!all_zero);
}

#[test]
fn config_validation_rejects_zero_population() {
    let r = PSO::new(
        10, 500_000, 1_500_000, 1_500_000, 0, 2, -5_120_000, 5_120_000, 0, 1_000_000, Sphere {},
        Lcg::new(1),
    );
    assert_eq!(r.err(), Some(PsoError::InvalidConfig));
}

#[test]
fn config_validation_rejects_zero_dimensionality() {
    let r = PSO::new(
        10, 500_000, 1_500_000, 1_500_000, 5, 0, -5_120_000, 5_120_000, 0, 1_000_000, Sphere {},
        Lcg::new(1),
    );
    assert_eq!(r.err(), Some(PsoError::InvalidConfig));
}

#[test]
fn config_validation_rejects_inverted_bounds() {
    let r = PSO::new(
        10, 500_000, 1_500_000, 1_500_000, 5, 2, 5_120_000, -5_120_000, 0, 1_000_000, Sphere {},
        Lcg::new(1),
    );
    assert_eq!(r.err(), Some(PsoError::InvalidConfig));
    let r2 = PSO::new(
        10, 500_000, 1_500_000, 1_500_000, 5, 2, -5_120_000, 5_120_000, 1_000_000, 0, Sphere {},
        Lcg::new(1),
    );
    assert_eq!(r2.err(), Some(PsoError::InvalidConfig));
}

#[test]
fn numeric_error_on_unrepresentable_fitness() {
    // positions near the top of the range make the sphere overflow
    let mut pso = PSO::new(
        1, 500_000, 1_500_000, 1_500_000, 3, 2, i64::MAX - 2, i64::MAX - 1, 0, 1_000_000,
        Sphere {}, Lcg::new(5),
    )
    .expect("config is valid");
    assert_eq!(pso.run().err(), Some(PsoError::NumericError));
}

fn fresh_pso(iterations: u32, p_size: u32, dim: u32, seed: u64) -> PSO<Sphere, Lcg> {
    PSO::new(
        iterations,
        500_000,
        1_500_000,
        1_500_000,
        p_size,
        dim,
        -5_120_000,
        5_120_000,
        0,
        1_000_000,
        Sphere {},
        Lcg::new(seed),
    )
    .expect("config is valid")
}

#[test]
fn global_best_is_monotone_across_iterations() {
    // a run of zero iterations leaves the initializer's global best
    let mut pso = fresh_pso(0, 5, 2, 9);
    pso.run().expect("initialization succeeds");
    let mut last = pso.best.fitness;
    for _ in 0..20 {
        pso.iterate().expect("iteration succeeds");
        assert!(pso.best.fitness <= last);
        last = pso.best.fitness;
    }
}

#[test]
fn personal_bests_are_monotone_across_iterations() {
    let mut pso = fresh_pso(0, 5, 3, 11);
    pso.run().expect("initialization succeeds");
    let mut last: Vec<i64> = pso.swarm.iter().map(|p| p.best_fitness).collect();
    for _ in 0..20 {
        pso.iterate().expect("iteration succeeds");
        for (k, p) in pso.swarm.iter().enumerate() {
            assert!(p.best_fitness <= last[k]);
        }
        last = pso.swarm.iter().map(|p| p.best_fitness).collect();
    }
}

#[test]
fn dimensional_integrity_holds_at_all_times() {
    let mut pso = fresh_pso(0, 4, 3, 13);
    pso.run().expect("initialization succeeds");
    for _ in 0..10 {
        for p in pso.swarm.iter() {
            assert_eq!(p.position.len(), 3);
            assert_eq!(p.velocity.len(), 3);
            assert_eq!(p.best.len(), 3);
        }
        assert_eq!(pso.best.position.len(), 3);
        pso.iterate().expect("iteration succeeds");
    }
}

#[test]
fn equal_seeds_give_identical_trajectories() {
    let mut a = fresh_pso(50, 5, 2, 2024);
    let mut b = fresh_pso(50, 5, 2, 2024);
    let ra = a.run().expect("run succeeds");
    let rb = b.run().expect("run succeeds");
    assert_eq!(ra.position, rb.position);
    assert_eq!(ra.fitness, rb.fitness);
    assert_eq!(a.swarm.len(), b.swarm.len());
    for (pa, pb) in a.swarm.iter().zip(b.swarm.iter()) {
        assert_eq!(pa.position, pb.position);
        assert_eq!(pa.velocity, pb.velocity);
        assert_eq!(pa.fitness, pb.fitness);
        assert_eq!(pa.best, pb.best);
        assert_eq!(pa.best_fitness, pb.best_fitness);
    }
}

#[test]
fn records_match_the_objective_after_every_iteration() {
    let mut pso = fresh_pso(0, 5, 2, 31);
    pso.run().expect("initialization succeeds");
    for _ in 0..10 {
        pso.iterate().expect("iteration succeeds");
        for p in pso.swarm.iter() {
            assert_eq!(sphere_of(&p.best), p.best_fitness);
        }
        assert_eq!(sphere_of(&pso.best.position), pso.best.fitness);
    }
}

#[test]
fn single_particle_social_term_is_its_own_personal_best() {
    let mut pso = fresh_pso(0, 1, 2, 17);
    pso.run().expect("initialization succeeds");
    let mut last = pso.best.fitness;
    for _ in 0..15 {
        assert_eq!(pso.best.position, pso.swarm[0].best);
        assert_eq!(pso.best.fitness, pso.swarm[0].best_fitness);
        pso.iterate().expect("iteration succeeds");
        assert!(pso.best.fitness <= last);
        last = pso.best.fitness;
    }
}

#[test]
fn sphere_scenario_improves_on_the_initial_best() {
    // the canonical sphere setup: two dimensions, five particles,
    // fifty iterations, inertia one half, both pulls three halves
    let mut initial = fresh_pso(0, 5, 2, 123);
    initial.run().expect("initialization succeeds");
    let start = initial.best.fitness;

    let mut pso = fresh_pso(50, 5, 2, 123);
    let end = pso.run().expect("run succeeds").fitness;
    assert!(end < start);
    // within an order of magnitude of zero: below one tenth in units
    assert!(end < UNIT / 10);
}

#[test]
fn zero_iterations_return_the_initial_best() {
    let mut a = fresh_pso(0, 5, 2, 77);
    let ra = a.run().expect("run succeeds");
    let mut b = fresh_pso(0, 5, 2, 77);
    b.run().expect("run succeeds");
    assert_eq!(ra.position, b.best.position);
    assert_eq!(ra.fitness, b.best.fitness);
}

#[test]
fn run_with_std_random_keeps_invariants() {
    let mut pso = PSO::new(
        20, 500_000, 1_500_000, 1_500_000, 5, 2, -5_120_000, 5_120_000, 0, 1_000_000, Sphere {},
        StdRandom::from_seed(99),
    )
    .expect("config is valid");
    let out = pso.run().expect("run succeeds");
    assert_eq!(out.position.len(), 2);
    assert_eq!(sphere_of(&out.position), out.fitness);
    for p in pso.swarm.iter() {
        assert!(out.fitness <= p.best_fitness);
        assert_eq!(sphere_of(&p.best), p.best_fitness);
    }
}
