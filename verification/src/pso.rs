//! The particle swarm optimizer: construction, initialization, the
//! iteration controller and the three per-iteration phases.

use vstd::prelude::*;
use crate::fixed::{fx_mul, sample_in};
use crate::model;
use crate::model::{
    dim_step, update_dims, update_swarm, eval_model, with_fitness, track_particle, track_all,
    scan_best, iterate_model, run_iters, init_dims, init_swarm, run_model,
};
use crate::objective::Objective;
use crate::particle::{Particle, PModel, zero_particle};
use crate::rng::RandomSource;

verus! {

/// Why a run cannot be performed or continued.
#[derive(Debug, Clone, Copy, PartialEq, Eq, Structural)]
pub enum PsoError {
    /// An empty population or dimensionality, or an empty or inverted
    /// sampling bound, rejected before any iteration runs.
    InvalidConfig,
    /// The objective value, or an update-rule intermediate, left the
    /// representable fixed-point range.
    NumericError,
}

/// What a usable configuration looks like: at least one particle and one
/// dimension, and non-empty sampling bounds whose widths are
/// representable.
pub open spec fn valid_config(
    p_size: int,
    dim: int,
    pos_low: int,
    pos_high: int,
    vel_low: int,
    vel_high: int,
) -> bool {
    p_size >= 1 && dim >= 1 && pos_low < pos_high && vel_low < vel_high && pos_high - pos_low
        <= i64::MAX && vel_high - vel_low <= i64::MAX
}

/// The optimizer: a swarm of particles, the global best record, the
/// run-level coefficients and bounds, and the two injected capabilities.
pub struct PSO<O: Objective, R: RandomSource> {
    /// The population.
    pub swarm: Vec<Particle>,
    /// The global best record: an independent copy of the best particle
    /// any evaluation has seen.
    pub best: Particle,
    /// How many update rounds `run` performs.
    pub iterations: u32,
    /// The inertia weight of the update rule.
    pub inertia: i64,
    /// The pull toward the personal best.
    pub lr_personal: i64,
    /// The pull toward the global best.
    pub lr_social: i64,
    /// The population size.
    pub p_size: u32,
    /// The dimensionality of every vector.
    pub dim: u32,
    /// The lower position sampling bound.
    pub pos_low: i64,
    /// The upper position sampling bound (excluded).
    pub pos_high: i64,
    /// The lower velocity sampling bound.
    pub vel_low: i64,
    /// The upper velocity sampling bound (excluded).
    pub vel_high: i64,
    /// The injected objective function.
    pub objective: O,
    /// The injected source of randomness.
    pub rng: R,
}

impl<O: Objective, R: RandomSource> PSO<O, R> {
    /// The models of the swarm's particles, in population order.
    pub open spec fn models(&self) -> Seq<PModel> {
        self.swarm@.map_values(|p: Particle| p@)
    }

    /// Whether the stored configuration is usable.
    pub open spec fn cfg_ok(&self) -> bool {
        valid_config(
            self.p_size as int,
            self.dim as int,
            self.pos_low as int,
            self.pos_high as int,
            self.vel_low as int,
            self.vel_high as int,
        )
    }

    /// Whether `other` holds the same configuration and objective.
    pub open spec fn same_config(&self, other: Self) -> bool {
        &&& self.iterations == other.iterations
        &&& self.inertia == other.inertia
        &&& self.lr_personal == other.lr_personal
        &&& self.lr_social == other.lr_social
        &&& self.p_size == other.p_size
        &&& self.dim == other.dim
        &&& self.pos_low == other.pos_low
        &&& self.pos_high == other.pos_high
        &&& self.vel_low == other.vel_low
        &&& self.vel_high == other.vel_high
        &&& self.objective == other.objective
    }

    /// The standing state invariant between iterations: the swarm is
    /// full; every vector of every particle and of the best record has
    /// the configured dimensionality; every best record carries exactly
    /// the objective value of its recorded position; and the global
    /// record is at least as good as every personal record.
    pub open spec fn ready(&self) -> bool {
        &&& self.cfg_ok()
        &&& self.models().len() == self.p_size as int
        &&& forall|k: int|
            0 <= k < self.models().len() ==> (#[trigger] self.models()[k]).wf(self.dim as int)
        &&& self.best@.wf(self.dim as int)
        &&& forall|k: int|
            0 <= k < self.models().len() ==> (#[trigger] self.models()[k]).best_fitness as int
                == self.objective.value(self.models()[k].best)
        &&& self.best@.fitness as int == self.objective.value(self.best@.position)
        &&& forall|k: int|
            0 <= k < self.models().len() ==> self.best@.fitness <= (#[trigger] self.models()[k]).best_fitness
    }

    /// Builds an optimizer, validating the configuration before any
    /// iteration can run. The swarm itself is not sampled yet; `run`
    /// initializes it. Succeeds exactly on valid configurations.
    pub fn new(
        iterations: u32,
        inertia: i64,
        lr_personal: i64,
        lr_social: i64,
        p_size: u32,
        dim: u32,
        pos_low: i64,
        pos_high: i64,
        vel_low: i64,
        vel_high: i64,
        objective: O,
        rng: R,
    ) -> (r: Result<PSO<O, R>, PsoError>)
        ensures
            match r {
                Ok(pso) => {
                    &&& valid_config(
                        p_size as int,
                        dim as int,
                        pos_low as int,
                        pos_high as int,
                        vel_low as int,
                        vel_high as int,
                    )
                    &&& pso.iterations == iterations
                    &&& pso.inertia == inertia
                    &&& pso.lr_personal == lr_personal
                    &&& pso.lr_social == lr_social
                    &&& pso.p_size == p_size
                    &&& pso.dim == dim
                    &&& pso.pos_low == pos_low
                    &&& pso.pos_high == pos_high
                    &&& pso.vel_low == vel_low
                    &&& pso.vel_high == vel_high
                    &&& pso.objective == objective
                    &&& pso.rng == rng
                    &&& pso.swarm@.len() == 0
                    &&& pso.best@ == zero_particle(dim as nat)
                },
                Err(e) => e == PsoError::InvalidConfig && !valid_config(
                    p_size as int,
                    dim as int,
                    pos_low as int,
                    pos_high as int,
                    vel_low as int,
                    vel_high as int,
                ),
            },
    {
        if p_size == 0 || dim == 0 || pos_low >= pos_high || vel_low >= vel_high {
            return Err(PsoError::InvalidConfig);
        }
        if (pos_high as i128) - (pos_low as i128) > i64::MAX as i128 || (vel_high as i128) - (
        vel_low as i128) > i64::MAX as i128 {
            return Err(PsoError::InvalidConfig);
        }
        let best = Particle::new(dim as usize);
        proof {
            assert(best@ =~= zero_particle(dim as nat));
        }
        Ok(
            PSO {
                swarm: Vec::new(),
                best,
                iterations,
                inertia,
                lr_personal,
                lr_social,
                p_size,
                dim,
                pos_low,
                pos_high,
                vel_low,
                vel_high,
                objective,
                rng,
            },
        )
    }
}

impl<O: Objective, R: RandomSource> PSO<O, R> {
    /// The fitness evaluator: recomputes every particle's fitness from
    /// its current position through the objective function. Fails with
    /// `NumericError` at the first unrepresentable value; best records
    /// are never touched.
    fn evaluate_population(&mut self) -> (r: Result<(), PsoError>)
        ensures
            final(self).same_config(*old(self)),
            final(self).rng == old(self).rng,
            final(self).best == old(self).best,
            final(self).models().len() == old(self).models().len(),
            forall|k: int|
                0 <= k < old(self).models().len() ==> {
                    &&& (#[trigger] final(self).models()[k]).position == old(self).models()[k].position
                    &&& final(self).models()[k].velocity == old(self).models()[k].velocity
                    &&& final(self).models()[k].best == old(self).models()[k].best
                    &&& final(self).models()[k].best_fitness == old(self).models()[k].best_fitness
                },
            match r {
                Ok(()) => eval_model(old(self).objective, old(self).models()) == Some(
                    final(self).models(),
                ) && (forall|k: int|
                    0 <= k < old(self).models().len()
                        ==> (#[trigger] final(self).models()[k]).fitness as int
                        == old(self).objective.value(old(self).models()[k].position)),
                Err(e) => e == PsoError::NumericError && eval_model(
                    old(self).objective,
                    old(self).models(),
                ) is None,
            },
    {
        let ghost ps0 = old(self).models();
        let mut i: usize = 0;
        while i < self.swarm.len()
            invariant
                0 <= i <= self.swarm@.len(),
                self.swarm@.len() == ps0.len(),
                ps0 == old(self).models(),
                self.same_config(*old(self)),
                self.rng == old(self).rng,
                self.best == old(self).best,
                forall|k: int| i <= k < ps0.len() ==> (#[trigger] self.models()[k]) == ps0[k],
                forall|k: int|
                    0 <= k < i ==> {
                        &&& old(self).objective.ok_on((#[trigger] ps0[k]).position)
                        &&& self.models()[k] == with_fitness(
                            ps0[k],
                            (old(self).objective.value(ps0[k].position)) as i64,
                        )
                        &&& self.models()[k].fitness as int == old(self).objective.value(
                            ps0[k].position,
                        )
                    },
            decreases self.swarm@.len() - i,
        {
            proof {
                assert(self.models()[i as int] == ps0[i as int]);
            }
            let f = match self.objective.eval(&self.swarm[i].position) {
                Some(v) => v,
                None => {
                    proof {
                        assert(!old(self).objective.ok_on(ps0[i as int].position));
                    }
                    return Err(PsoError::NumericError);
                },
            };
            let mut np = self.swarm[i].clone();
            np.fitness = f;
            let ghost npm = np@;
            let ghost v0 = *self;
            proof {
                assert(npm =~= with_fitness(ps0[i as int], f));
            }
            self.swarm.set(i, np);
            proof {
                assert forall|k: int| 0 <= k < ps0.len() implies #[trigger] self.models()[k] == (
                if k == i as int {
                    npm
                } else {
                    v0.models()[k]
                }) by {
                    if k == i as int {
                        assert(self.swarm@[k]@ == npm);
                    } else {
                        assert(self.swarm@[k] == v0.swarm@[k]);
                    }
                }
            }
            i += 1;
        }
        proof {
            assert(eval_model(old(self).objective, ps0) == Some(final(self).models())) by {
                assert(forall|k: int|
                    0 <= k < ps0.len() ==> old(self).objective.ok_on((#[trigger] ps0[k]).position));
                let want = Seq::new(
                    ps0.len(),
                    |k: int| with_fitness(ps0[k], old(self).objective.value(ps0[k].position) as i64),
                );
                assert(final(self).models() =~= want);
            }
        }
        Ok(())
    }

    /// The best tracker: a strictly better fitness overwrites a
    /// particle's personal record, and the first strictly better
    /// particle scanned overwrites the global record — on an exact tie
    /// the first particle scanned wins, and the record never worsens.
    fn track_bests(&mut self)
        ensures
            final(self).same_config(*old(self)),
            final(self).rng == old(self).rng,
            final(self).models().len() == old(self).models().len(),
            final(self).models() == track_all(old(self).models()),
            final(self).best@ == scan_best(track_all(old(self).models()), old(self).best@, 0),
            final(self).best@.fitness <= old(self).best@.fitness,
            forall|k: int|
                0 <= k < old(self).models().len()
                    ==> (#[trigger] final(self).models()[k]).best_fitness
                    <= old(self).models()[k].best_fitness,
    {
        let ghost ps0 = old(self).models();
        let ghost ps2 = track_all(ps0);
        let mut i: usize = 0;
        while i < self.swarm.len()
            invariant
                0 <= i <= self.swarm@.len(),
                self.swarm@.len() == ps0.len(),
                ps0 == old(self).models(),
                ps2 == track_all(ps0),
                self.same_config(*old(self)),
                self.rng == old(self).rng,
                forall|k: int| i <= k < ps0.len() ==> (#[trigger] self.models()[k]) == ps0[k],
                forall|k: int| 0 <= k < i ==> (#[trigger] self.models()[k]) == ps2[k],
                scan_best(ps2, old(self).best@, 0) == scan_best(ps2, self.best@, i as int),
                self.best@.fitness <= old(self).best@.fitness,
            decreases self.swarm@.len() - i,
        {
            let ghost v0 = *self;
            proof {
                assert(v0.models()[i as int] == ps0[i as int]);
                assert(ps2[i as int] == track_particle(ps0[i as int]));
            }
            if self.swarm[i].fitness < self.swarm[i].best_fitness {
                let mut np = self.swarm[i].clone();
                let nb = crate::particle::copy_vec(&np.position);
                np.best = nb;
                np.best_fitness = np.fitness;
                proof {
                    assert(np@ =~= track_particle(ps0[i as int]));
                }
                self.swarm.set(i, np);
                proof {
                    assert(self.models()[i as int] == ps2[i as int]);
                }
            } else {
                proof {
                    assert(track_particle(ps0[i as int]) == ps0[i as int]);
                    assert(self.models()[i as int] == ps2[i as int]);
                }
            }
            proof {
                assert forall|k: int| 0 <= k < ps0.len() implies #[trigger] self.models()[k] == (
                if k == i as int {
                    ps2[i as int]
                } else {
                    v0.models()[k]
                }) by {
                    if k != i as int {
                        assert(self.swarm@[k] == v0.swarm@[k]);
                    }
                }
            }
            let ghost gprev = self.best@;
            if self.swarm[i].fitness < self.best.fitness {
                self.best = self.swarm[i].clone();
            }
            proof {
                assert(self.models()[i as int] == ps2[i as int]);
                assert(ps2[i as int].fitness == ps0[i as int].fitness);
                assert(self.best@ == (if ps2[i as int].fitness < gprev.fitness {
                    ps2[i as int]
                } else {
                    gprev
                }));
                assert(scan_best(ps2, gprev, i as int) == scan_best(ps2, self.best@, i + 1));
            }
            i += 1;
        }
        proof {
            assert(scan_best(ps2, self.best@, i as int) == self.best@);
        }
    }
}

impl<O: Objective, R: RandomSource> PSO<O, R> {
    /// The velocity/position updater: every dimension of every particle
    /// takes one step of the stochastic rule, pulled toward the one
    /// global-best snapshot taken before the pass. Fitness values and
    /// best records are untouched, and positions are not clamped. For a
    /// replayable source the pass computes exactly the model
    /// `update_swarm`; it fails with `NumericError` exactly where the
    /// model overflows.
    #[verifier::loop_isolation(false)]
    fn update_positions(&mut self) -> (r: Result<(), PsoError>)
        requires
            old(self).ready(),
        ensures
            final(self).same_config(*old(self)),
            final(self).best == old(self).best,
            final(self).rng.replay() == old(self).rng.replay(),
            final(self).models().len() == old(self).models().len(),
            forall|k: int|
                0 <= k < old(self).models().len() ==> {
                    &&& (#[trigger] final(self).models()[k]).wf(old(self).dim as int)
                    &&& final(self).models()[k].fitness == old(self).models()[k].fitness
                    &&& final(self).models()[k].best == old(self).models()[k].best
                    &&& final(self).models()[k].best_fitness == old(self).models()[k].best_fitness
                },
            match r {
                Ok(()) => old(self).rng.replay() ==> update_swarm::<R>(
                    old(self).inertia as int,
                    old(self).lr_personal as int,
                    old(self).lr_social as int,
                    old(self).models(),
                    old(self).best@.position,
                    old(self).rng.state(),
                    0,
                ) == Some((final(self).models(), final(self).rng.state())),
                Err(e) => e == PsoError::NumericError && (old(self).rng.replay()
                    ==> update_swarm::<R>(
                    old(self).inertia as int,
                    old(self).lr_personal as int,
                    old(self).lr_social as int,
                    old(self).models(),
                    old(self).best@.position,
                    old(self).rng.state(),
                    0,
                ) is None),
            },
    {
        let ghost ps0 = old(self).models();
        let ghost s0 = old(self).rng.state();
        let ghost w = old(self).inertia as int;
        let ghost cp = old(self).lr_personal as int;
        let ghost cs = old(self).lr_social as int;
        let gbv = crate::particle::copy_vec(&self.best.position);
        let dim_us = self.dim as usize;
        let mut i: usize = 0;
        while i < self.swarm.len()
            invariant
                0 <= i <= self.swarm@.len(),
                self.swarm@.len() == ps0.len(),
                self.same_config(*old(self)),
                self.best == old(self).best,
                self.rng.replay() == old(self).rng.replay(),
                forall|k: int| i <= k < ps0.len() ==> (#[trigger] self.models()[k]) == ps0[k],
                forall|k: int|
                    0 <= k < i ==> {
                        &&& (#[trigger] self.models()[k]).wf(old(self).dim as int)
                        &&& self.models()[k].fitness == ps0[k].fitness
                        &&& self.models()[k].best == ps0[k].best
                        &&& self.models()[k].best_fitness == ps0[k].best_fitness
                    },
                old(self).rng.replay() ==> update_swarm::<R>(w, cp, cs, ps0, gbv@, s0, 0)
                    == update_swarm::<R>(w, cp, cs, self.models(), gbv@, self.rng.state(), i as int),
            decreases self.swarm@.len() - i,
        {
            let ghost vouter = *self;
            let ghost p0 = self.models()[i as int];
            let mut npos = crate::particle::copy_vec(&self.swarm[i].position);
            let mut nvel = crate::particle::copy_vec(&self.swarm[i].velocity);
            let ghost si = self.rng.state();
            proof {
                assert(p0 == ps0[i as int]);
                assert(p0.wf(dim_us as int));
            }
            let mut j: usize = 0;
            while j < dim_us
                invariant
                    0 <= j <= dim_us,
                    npos@.len() == dim_us,
                    nvel@.len() == dim_us,
                    self.swarm@ == vouter.swarm@,
                    self.best == vouter.best,
                    self.same_config(*old(self)),
                    self.rng.replay() == old(self).rng.replay(),
                    old(self).rng.replay() ==> update_dims::<R>(
                        w,
                        cp,
                        cs,
                        p0.position,
                        p0.velocity,
                        p0.best,
                        gbv@,
                        si,
                        0,
                    ) == update_dims::<R>(
                        w,
                        cp,
                        cs,
                        npos@,
                        nvel@,
                        p0.best,
                        gbv@,
                        self.rng.state(),
                        j as int,
                    ),
                decreases dim_us - j,
            {
                let ghost s_pre = self.rng.state();
                let ghost npos_pre = npos@;
                let ghost nvel_pre = nvel@;
                let r1 = self.rng.next_unit();
                let r2 = self.rng.next_unit();
                let x = npos[j];
                let v = nvel[j];
                let pb = self.swarm[i].best[j];
                let gb = gbv[j];
                proof {
                    assert(pb == p0.best[j as int]);
                }
                match dim_step_exec(
                    self.inertia,
                    self.lr_personal,
                    self.lr_social,
                    x,
                    v,
                    pb,
                    gb,
                    r1,
                    r2,
                ) {
                    Some(t) => {
                        nvel.set(j, t.0);
                        npos.set(j, t.1);
                        proof {
                            if old(self).rng.replay() {
                                assert(r1 == R::draw_at(s_pre));
                                assert(r2 == R::draw_at(R::step_at(s_pre)));
                                assert(self.rng.state() == R::step_at(R::step_at(s_pre)));
                                assert(update_dims::<R>(w, cp, cs, npos_pre, nvel_pre, p0.best,
                                    gbv@, s_pre, j as int) == update_dims::<R>(w, cp, cs, npos@,
                                    nvel@, p0.best, gbv@, self.rng.state(), j + 1));
                            }
                        }
                    },
                    None => {
                        proof {
                            if old(self).rng.replay() {
                                assert(update_dims::<R>(w, cp, cs, npos_pre, nvel_pre, p0.best,
                                    gbv@, s_pre, j as int) is None);
                                assert(update_dims::<R>(w, cp, cs, p0.position, p0.velocity,
                                    p0.best, gbv@, si, 0) is None);
                                assert(update_swarm::<R>(w, cp, cs, vouter.models(), gbv@, si,
                                    i as int) is None);
                                assert(update_swarm::<R>(w, cp, cs, ps0, gbv@, s0, 0) is None);
                            }
                        }
                        return Err(PsoError::NumericError);
                    },
                }
                j += 1;
            }
            let bestv = crate::particle::copy_vec(&self.swarm[i].best);
            let np = Particle {
                position: npos,
                velocity: nvel,
                fitness: self.swarm[i].fitness,
                best: bestv,
                best_fitness: self.swarm[i].best_fitness,
            };
            let ghost npm = np@;
            let ghost v1 = *self;
            self.swarm.set(i, np);
            proof {
                assert forall|k: int| 0 <= k < ps0.len() implies #[trigger] self.models()[k] == (
                if k == i as int {
                    npm
                } else {
                    v1.models()[k]
                }) by {
                    if k == i as int {
                        assert(self.swarm@[k]@ == npm);
                    } else {
                        assert(self.swarm@[k] == v1.swarm@[k]);
                    }
                }
                if old(self).rng.replay() {
                    assert(update_dims::<R>(w, cp, cs, p0.position, p0.velocity, p0.best, gbv@, si,
                        0) == Some((npm.position, npm.velocity, self.rng.state())));
                    assert(vouter.models().update(i as int, npm) =~= self.models());
                    assert(update_swarm::<R>(w, cp, cs, vouter.models(), gbv@, si, i as int)
                        == update_swarm::<R>(w, cp, cs, self.models(), gbv@, self.rng.state(),
                        i + 1));
                }
            }
            i += 1;
        }
        Ok(())
    }
}

impl<O: Objective, R: RandomSource> PSO<O, R> {
    /// The swarm initializer: samples every velocity and position
    /// coordinate uniformly from the configured bounds, evaluates each
    /// particle at once, makes each particle its own personal best, and
    /// records the first particle of minimum fitness as the global
    /// best. For a replayable source it computes exactly the model
    /// `init_swarm`; it fails with `NumericError` exactly where the
    /// model does.
    #[verifier::loop_isolation(false)]
    fn initialize_population(&mut self) -> (r: Result<(), PsoError>)
        requires
            old(self).cfg_ok(),
        ensures
            final(self).same_config(*old(self)),
            final(self).rng.replay() == old(self).rng.replay(),
            match r {
                Ok(()) => {
                    &&& final(self).ready()
                    &&& forall|k: int|
                        0 <= k < final(self).models().len() ==> {
                            &&& (#[trigger] final(self).models()[k]).best == final(self).models()[k].position
                            &&& final(self).models()[k].best_fitness == final(self).models()[k].fitness
                            &&& final(self).models()[k].fitness as int == old(self).objective.value(
                                final(self).models()[k].position,
                            )
                            &&& forall|j: int|
                                0 <= j < old(self).dim as int ==> {
                                    &&& old(self).pos_low <= #[trigger] final(self).models()[k].position[j] < old(self).pos_high
                                    &&& old(self).vel_low <= final(self).models()[k].velocity[j]
                                        < old(self).vel_high
                                }
                        }
                    &&& forall|k: int|
                        0 <= k < final(self).models().len() ==> final(self).best@.fitness
                            <= (#[trigger] final(self).models()[k]).fitness
                    &&& exists|k: int|
                        0 <= k < final(self).models().len() && final(self).best@ == (
                        #[trigger] final(self).models()[k])
                    &&& (old(self).rng.replay() ==> init_swarm::<O, R>(
                        old(self).objective,
                        old(self).pos_low as int,
                        old(self).pos_high as int,
                        old(self).vel_low as int,
                        old(self).vel_high as int,
                        Seq::new(
                            old(self).p_size as nat,
                            |q: int| zero_particle(old(self).dim as nat),
                        ),
                        Option::None,
                        old(self).rng.state(),
                        0,
                    ) == Some((final(self).models(), final(self).best@, final(self).rng.state())))
                },
                Err(e) => e == PsoError::NumericError && (old(self).rng.replay()
                    ==> init_swarm::<O, R>(
                    old(self).objective,
                    old(self).pos_low as int,
                    old(self).pos_high as int,
                    old(self).vel_low as int,
                    old(self).vel_high as int,
                    Seq::new(old(self).p_size as nat, |q: int| zero_particle(old(self).dim as nat)),
                    Option::None,
                    old(self).rng.state(),
                    0,
                ) is None),
            },
    {
        let ghost ps0 = Seq::new(
            old(self).p_size as nat,
            |q: int| zero_particle(old(self).dim as nat),
        );
        let ghost s0 = old(self).rng.state();
        let ghost plo = old(self).pos_low as int;
        let ghost phi = old(self).pos_high as int;
        let ghost vlo = old(self).vel_low as int;
        let ghost vhi = old(self).vel_high as int;
        let dim_us = self.dim as usize;
        let psz = self.p_size as usize;
        let mut sw: Vec<Particle> = Vec::new();
        while sw.len() < psz
            invariant
                sw@.len() <= psz,
                forall|k: int|
                    0 <= k < sw@.len() ==> (#[trigger] sw@[k]@) == zero_particle(
                        old(self).dim as nat,
                    ),
            decreases psz - sw@.len(),
        {
            sw.push(Particle::new(dim_us));
        }
        self.swarm = sw;
        proof {
            assert(self.models() =~= ps0);
        }
        let mut i: usize = 0;
        while i < psz
            invariant
                0 <= i <= psz,
                self.swarm@.len() == psz,
                self.same_config(*old(self)),
                self.rng.replay() == old(self).rng.replay(),
                forall|k: int|
                    i <= k < psz ==> (#[trigger] self.models()[k]) == zero_particle(
                        old(self).dim as nat,
                    ),
                forall|k: int|
                    0 <= k < i ==> {
                        &&& (#[trigger] self.models()[k]).wf(old(self).dim as int)
                        &&& self.models()[k].best == self.models()[k].position
                        &&& self.models()[k].best_fitness == self.models()[k].fitness
                        &&& self.models()[k].fitness as int == old(self).objective.value(
                            self.models()[k].position,
                        )
                        &&& forall|j: int|
                            0 <= j < old(self).dim as int ==> {
                                &&& old(self).pos_low <= #[trigger] self.models()[k].position[j]
                                    < old(self).pos_high
                                &&& old(self).vel_low <= self.models()[k].velocity[j] < old(self).vel_high
                            }
                    },
                i > 0 ==> {
                    &&& self.best@.wf(old(self).dim as int)
                    &&& (exists|k: int|
                        0 <= k < i && self.best@ == (#[trigger] self.models()[k]))
                    &&& (forall|k: int|
                        0 <= k < i ==> self.best@.fitness <= (#[trigger] self.models()[k]).fitness)
                },
                old(self).rng.replay() ==> init_swarm::<O, R>(
                    old(self).objective,
                    plo,
                    phi,
                    vlo,
                    vhi,
                    ps0,
                    Option::None,
                    s0,
                    0,
                ) == init_swarm::<O, R>(
                    old(self).objective,
                    plo,
                    phi,
                    vlo,
                    vhi,
                    self.models(),
                    if i == 0 {
                        Option::None
                    } else {
                        Option::Some(self.best@)
                    },
                    self.rng.state(),
                    i as int,
                ),
            decreases psz - i,
        {
            let ghost vouter = *self;
            let ghost si = self.rng.state();
            let mut npos = crate::particle::copy_vec(&self.swarm[i].position);
            let mut nvel = crate::particle::copy_vec(&self.swarm[i].velocity);
            proof {
                assert(vouter.models()[i as int] == zero_particle(old(self).dim as nat));
            }
            let mut j: usize = 0;
            while j < dim_us
                invariant
                    0 <= j <= dim_us,
                    npos@.len() == dim_us,
                    nvel@.len() == dim_us,
                    self.swarm@ == vouter.swarm@,
                    self.best == vouter.best,
                    self.same_config(*old(self)),
                    self.rng.replay() == old(self).rng.replay(),
                    forall|jj: int|
                        0 <= jj < j ==> old(self).pos_low <= #[trigger] npos@[jj] < old(self).pos_high,
                    forall|jj: int|
                        0 <= jj < j ==> old(self).vel_low <= #[trigger] nvel@[jj] < old(self).vel_high,
                    old(self).rng.replay() ==> init_dims::<R>(
                        vouter.models()[i as int].position,
                        vouter.models()[i as int].velocity,
                        plo,
                        phi,
                        vlo,
                        vhi,
                        si,
                        0,
                    ) == init_dims::<R>(npos@, nvel@, plo, phi, vlo, vhi, self.rng.state(), j as int),
                decreases dim_us - j,
            {
                let ghost s_pre = self.rng.state();
                let ghost npos_pre = npos@;
                let ghost nvel_pre = nvel@;
                let uv = self.rng.next_unit();
                let sv = sample_in(self.vel_low, self.vel_high, uv);
                nvel.set(j, sv);
                let up = self.rng.next_unit();
                let sp = sample_in(self.pos_low, self.pos_high, up);
                npos.set(j, sp);
                proof {
                    if old(self).rng.replay() {
                        assert(uv == R::draw_at(s_pre));
                        assert(up == R::draw_at(R::step_at(s_pre)));
                        assert(self.rng.state() == R::step_at(R::step_at(s_pre)));
                        assert(init_dims::<R>(npos_pre, nvel_pre, plo, phi, vlo, vhi, s_pre,
                            j as int) == init_dims::<R>(npos@, nvel@, plo, phi, vlo, vhi,
                            self.rng.state(), j + 1));
                    }
                }
                j += 1;
            }
            let f = match self.objective.eval(&npos) {
                Some(v) => v,
                None => {
                    proof {
                        if old(self).rng.replay() {
                            assert(init_swarm::<O, R>(old(self).objective, plo, phi, vlo, vhi,
                                vouter.models(), if i == 0 {
                                Option::None
                            } else {
                                Option::Some(vouter.best@)
                            }, si, i as int) is None);
                            assert(init_swarm::<O, R>(old(self).objective, plo, phi, vlo, vhi, ps0,
                                Option::None, s0, 0) is None);
                        }
                    }
                    return Err(PsoError::NumericError);
                },
            };
            let bestv = crate::particle::copy_vec(&npos);
            let np = Particle {
                position: npos,
                velocity: nvel,
                fitness: f,
                best: bestv,
                best_fitness: f,
            };
            let ghost npm = np@;
            let ghost v1 = *self;
            self.swarm.set(i, np);
            proof {
                assert forall|k: int| 0 <= k < psz implies #[trigger] self.models()[k] == (
                if k == i as int {
                    npm
                } else {
                    v1.models()[k]
                }) by {
                    if k == i as int {
                        assert(self.swarm@[k]@ == npm);
                    } else {
                        assert(self.swarm@[k] == v1.swarm@[k]);
                    }
                }
            }
            proof {
                assert(v1.swarm@ == vouter.swarm@);
                assert(vouter.models().update(i as int, npm) =~= self.models());
                assert(npm.position == bestv@ && npm.best == bestv@);
            }
            let ghost gprev = self.best@;
            if i == 0 || self.swarm[i].fitness < self.best.fitness {
                self.best = self.swarm[i].clone();
                proof {
                    assert(self.best@ == self.models()[i as int]);
                }
            } else {
                proof {
                    assert(i > 0);
                    assert(self.best@ == gprev);
                    let kk = choose|k: int|
                        0 <= k < i && gprev == (#[trigger] vouter.models()[k]);
                    assert(self.models()[kk] == vouter.models()[kk]);
                    assert(self.best@ == self.models()[kk]);
                }
            }
            proof {
                if old(self).rng.replay() {
                    let d = init_dims::<R>(vouter.models()[i as int].position,
                        vouter.models()[i as int].velocity, plo, phi, vlo, vhi, si, 0);
                    assert(init_dims::<R>(npm.position, npm.velocity, plo, phi, vlo, vhi,
                        self.rng.state(), dim_us as int) == (npm.position, npm.velocity,
                        self.rng.state()));
                    assert(d == (npm.position, npm.velocity, self.rng.state()));
                    assert(old(self).objective.ok_on(d.0));
                    assert(old(self).objective.value(d.0) as i64 == f);
                    assert(PModel {
                        position: d.0,
                        velocity: d.1,
                        fitness: f,
                        best: d.0,
                        best_fitness: f,
                    } =~= npm);
                    assert(init_swarm::<O, R>(old(self).objective, plo, phi, vlo, vhi,
                        vouter.models(), if i == 0 {
                        Option::None
                    } else {
                        Option::Some(gprev)
                    }, si, i as int) == init_swarm::<O, R>(old(self).objective, plo, phi, vlo, vhi,
                        self.models(), Option::Some(self.best@), self.rng.state(), i + 1));
                }
            }
            i += 1;
        }
        proof {
            let ghost mfin = self.models();
            assert(init_swarm::<O, R>(old(self).objective, plo, phi, vlo, vhi, mfin,
                Option::Some(self.best@), self.rng.state(), psz as int) == Some((mfin, self.best@,
                self.rng.state())));
            let kk = choose|k: int| 0 <= k < psz && self.best@ == (#[trigger] self.models()[k]);
            assert(self.best@.fitness as int == self.objective.value(self.best@.position));
        }
        Ok(())
    }
}

impl<O: Objective, R: RandomSource> PSO<O, R> {
    /// One whole iteration: fitness evaluation over every particle,
    /// then best tracking, then the velocity/position update, in that
    /// fixed order. Whatever the random draws were, the global best
    /// record never worsens, no personal best worsens, and the state
    /// invariant is preserved. For a replayable source the iteration
    /// computes exactly the model `iterate_model`, and fails with
    /// `NumericError` exactly where the model does.
    pub fn iterate(&mut self) -> (r: Result<(), PsoError>)
        requires
            old(self).ready(),
        ensures
            final(self).same_config(*old(self)),
            final(self).ready(),
            final(self).rng.replay() == old(self).rng.replay(),
            final(self).models().len() == old(self).models().len(),
            final(self).best@.fitness <= old(self).best@.fitness,
            forall|k: int|
                0 <= k < old(self).models().len()
                    ==> (#[trigger] final(self).models()[k]).best_fitness
                    <= old(self).models()[k].best_fitness,
            match r {
                Ok(()) => old(self).rng.replay() ==> iterate_model::<O, R>(
                    old(self).objective,
                    old(self).inertia as int,
                    old(self).lr_personal as int,
                    old(self).lr_social as int,
                    old(self).models(),
                    old(self).best@,
                    old(self).rng.state(),
                ) == Some((final(self).models(), final(self).best@, final(self).rng.state())),
                Err(e) => e == PsoError::NumericError && (old(self).rng.replay()
                    ==> iterate_model::<O, R>(
                    old(self).objective,
                    old(self).inertia as int,
                    old(self).lr_personal as int,
                    old(self).lr_social as int,
                    old(self).models(),
                    old(self).best@,
                    old(self).rng.state(),
                ) is None),
            },
    {
        let ghost m0 = old(self).models();
        let ghost g0 = old(self).best@;
        let ghost s0 = old(self).rng.state();
        match self.evaluate_population() {
            Ok(()) => {},
            Err(e) => {
                return Err(e);
            },
        }
        let ghost m1 = self.models();
        proof {
            assert(eval_model(old(self).objective, m0) == Some(m1));
            assert forall|k: int| 0 <= k < m1.len() implies (#[trigger] m1[k]).wf(
                old(self).dim as int,
            ) by {
                assert(m0[k].wf(old(self).dim as int));
            }
        }
        self.track_bests();
        let ghost m2 = self.models();
        let ghost g2 = self.best@;
        proof {
            assert(m2 == track_all(m1));
            assert(g2 == scan_best(m2, g0, 0));
            assert forall|k: int| 0 <= k < m2.len() implies (#[trigger] m2[k]).wf(
                old(self).dim as int,
            ) && m2[k].best_fitness as int == old(self).objective.value(m2[k].best) by {
                assert(m2[k] == track_particle(m1[k]));
                assert(m1[k].wf(old(self).dim as int));
                assert(m1[k].fitness as int == old(self).objective.value(m1[k].position));
                assert(m1[k].best_fitness == m0[k].best_fitness && m1[k].best == m0[k].best);
                assert(m0[k].best_fitness as int == old(self).objective.value(m0[k].best));
            }
            model::lemma_scan_best_min(m2, g0, 0);
            model::lemma_scan_best_monotone(m2, g0, 0);
            assert forall|k: int| 0 <= k < m2.len() implies g2.fitness <= (
            #[trigger] m2[k]).best_fitness by {
                assert(m2[k] == track_particle(m1[k]));
                assert(g2.fitness <= m2[k].fitness);
                assert(g0.fitness <= m0[k].best_fitness);
                assert(m1[k].best_fitness == m0[k].best_fitness);
            }
            if g2 != g0 {
                let kk = choose|k: int| 0 <= k < m2.len() && g2 == #[trigger] m2[k];
                assert(m2[kk] == track_particle(m1[kk]));
                assert(g2.fitness as int == old(self).objective.value(g2.position));
                assert(g2.wf(old(self).dim as int));
            }
            assert(self.ready());
        }
        match self.update_positions() {
            Ok(()) => {},
            Err(e) => {
                return Err(e);
            },
        }
        proof {
            assert forall|k: int| 0 <= k < m0.len() implies (#[trigger] self.models()[k]).wf(
                old(self).dim as int,
            ) && self.models()[k].best_fitness as int == old(self).objective.value(
                self.models()[k].best,
            ) by {
                assert(self.models()[k].best == m2[k].best && self.models()[k].best_fitness
                    == m2[k].best_fitness);
            }
        }
        Ok(())
    }

    /// The iteration controller: initializes the swarm once, then runs
    /// the configured number of iterations — evaluation, best tracking,
    /// velocity/position update, in that fixed order — and returns an
    /// independent copy of the global best record. Zero iterations
    /// yield the initializer's global best unchanged. For a replayable
    /// source the outcome is exactly the model `run_model` of the
    /// configuration and the source's starting state, so two runs from
    /// equal configurations and equal seeds return identical results;
    /// it fails with `NumericError` exactly where the model does.
    #[verifier::loop_isolation(false)]
    pub fn run(&mut self) -> (r: Result<Particle, PsoError>)
        requires
            old(self).cfg_ok(),
        ensures
            final(self).same_config(*old(self)),
            final(self).rng.replay() == old(self).rng.replay(),
            match r {
                Ok(p) => {
                    &&& final(self).ready()
                    &&& p@ == final(self).best@
                    &&& (old(self).rng.replay() ==> run_model::<O, R>(
                        old(self).objective,
                        old(self).inertia as int,
                        old(self).lr_personal as int,
                        old(self).lr_social as int,
                        old(self).p_size as nat,
                        old(self).dim as nat,
                        old(self).pos_low as int,
                        old(self).pos_high as int,
                        old(self).vel_low as int,
                        old(self).vel_high as int,
                        old(self).iterations as int,
                        old(self).rng.state(),
                    ) == Some((final(self).models(), final(self).best@, final(self).rng.state())))
                },
                Err(e) => e == PsoError::NumericError && (old(self).rng.replay()
                    ==> run_model::<O, R>(
                    old(self).objective,
                    old(self).inertia as int,
                    old(self).lr_personal as int,
                    old(self).lr_social as int,
                    old(self).p_size as nat,
                    old(self).dim as nat,
                    old(self).pos_low as int,
                    old(self).pos_high as int,
                    old(self).vel_low as int,
                    old(self).vel_high as int,
                    old(self).iterations as int,
                    old(self).rng.state(),
                ) is None),
            },
    {
        let ghost w = old(self).inertia as int;
        let ghost cp = old(self).lr_personal as int;
        let ghost cs = old(self).lr_social as int;
        match self.initialize_population() {
            Ok(()) => {},
            Err(e) => {
                return Err(e);
            },
        }
        let ghost minit = self.models();
        let ghost ginit = self.best@;
        let ghost sinit = self.rng.state();
        let iters = self.iterations;
        let mut it: u32 = 0;
        while it < iters
            invariant
                0 <= it <= iters,
                self.ready(),
                self.same_config(*old(self)),
                self.rng.replay() == old(self).rng.replay(),
                old(self).rng.replay() ==> run_iters::<O, R>(
                    old(self).objective,
                    w,
                    cp,
                    cs,
                    minit,
                    ginit,
                    sinit,
                    iters as int,
                ) == run_iters::<O, R>(
                    old(self).objective,
                    w,
                    cp,
                    cs,
                    self.models(),
                    self.best@,
                    self.rng.state(),
                    iters - it,
                ),
            decreases iters - it,
        {
            let ghost mpre = self.models();
            let ghost gpre = self.best@;
            let ghost spre = self.rng.state();
            match self.iterate() {
                Ok(()) => {
                    proof {
                        if old(self).rng.replay() {
                            assert(run_iters::<O, R>(old(self).objective, w, cp, cs, mpre, gpre,
                                spre, iters - it) == run_iters::<O, R>(old(self).objective, w, cp,
                                cs, self.models(), self.best@, self.rng.state(), iters - it - 1));
                        }
                    }
                },
                Err(e) => {
                    proof {
                        if old(self).rng.replay() {
                            assert(run_iters::<O, R>(old(self).objective, w, cp, cs, mpre, gpre,
                                spre, iters - it) is None);
                            assert(run_iters::<O, R>(old(self).objective, w, cp, cs, minit, ginit,
                                sinit, iters as int) is None);
                        }
                    }
                    return Err(e);
                },
            }
            it += 1;
        }
        proof {
            if old(self).rng.replay() {
                assert(run_iters::<O, R>(old(self).objective, w, cp, cs, self.models(), self.best@,
                    self.rng.state(), 0) == Some((self.models(), self.best@, self.rng.state())));
            }
        }
        let out = self.best.clone();
        Ok(out)
    }
}

/// One dimension of the update rule, computed with checked fixed-point
/// arithmetic; returns exactly what the model `dim_step` says, `None`
/// exactly where it overflows.
fn dim_step_exec(w: i64, cp: i64, cs: i64, x: i64, v: i64, pb: i64, gb: i64, r1: i64, r2: i64) -> (r:
    Option<(i64, i64)>)
    ensures
        match r {
            Some(t) => dim_step(
                w as int,
                cp as int,
                cs as int,
                x as int,
                v as int,
                pb as int,
                gb as int,
                r1 as int,
                r2 as int,
            ) == Some((t.0 as int, t.1 as int)),
            None => dim_step(
                w as int,
                cp as int,
                cs as int,
                x as int,
                v as int,
                pb as int,
                gb as int,
                r1 as int,
                r2 as int,
            ) is None,
        },
{
    let d1 = match pb.checked_sub(x) {
        Some(d) => d,
        None => { return None; },
    };
    let d2 = match gb.checked_sub(x) {
        Some(d) => d,
        None => { return None; },
    };
    let t0 = match fx_mul(w, v) {
        Some(t) => t,
        None => { return None; },
    };
    let a1 = match fx_mul(cp, r1) {
        Some(t) => t,
        None => { return None; },
    };
    let t1 = match fx_mul(a1, d1) {
        Some(t) => t,
        None => { return None; },
    };
    let a2 = match fx_mul(cs, r2) {
        Some(t) => t,
        None => { return None; },
    };
    let t2 = match fx_mul(a2, d2) {
        Some(t) => t,
        None => { return None; },
    };
    let s1 = match t0.checked_add(t1) {
        Some(t) => t,
        None => { return None; },
    };
    let s2 = match s1.checked_add(t2) {
        Some(t) => t,
        None => { return None; },
    };
    let nx = match x.checked_add(s2) {
        Some(t) => t,
        None => { return None; },
    };
    Some((s2, nx))
}

} // verus!
