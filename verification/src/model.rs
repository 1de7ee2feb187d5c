//! The mathematical model of one optimization run.
//!
//! Every phase of the algorithm — sampling, evaluation, best tracking,
//! the velocity/position update — has a spec-level counterpart here. The
//! executable code in `pso` is proved to compute exactly these values;
//! where a phase consumes random draws, the model threads the abstract
//! state of a replayable source (see `rng::RandomSource`), so a whole
//! run is a function of its configuration and the seed.

use vstd::prelude::*;
use crate::fixed::{fits, fx_mul_val, sample_val};
use crate::objective::Objective;
use crate::particle::PModel;
use crate::rng::RandomSource;

verus! {

/// One dimension of the velocity/position update rule:
/// the new velocity is the inertia-weighted old velocity, plus the two
/// random pulls toward the personal best `pb` and the global best `gb`;
/// the new position is the old position plus the new velocity. `None`
/// where any intermediate value leaves the fixed-point range.
pub open spec fn dim_step(
    w: int,
    cp: int,
    cs: int,
    x: int,
    v: int,
    pb: int,
    gb: int,
    r1: int,
    r2: int,
) -> Option<(int, int)> {
    if !fits(pb - x) || !fits(gb - x) {
        None
    } else {
        let t0 = fx_mul_val(w, v);
        let a1 = fx_mul_val(cp, r1);
        let t1 = fx_mul_val(a1, pb - x);
        let a2 = fx_mul_val(cs, r2);
        let t2 = fx_mul_val(a2, gb - x);
        if !fits(t0) || !fits(a1) || !fits(t1) || !fits(a2) || !fits(t2) || !fits(t0 + t1)
            || !fits(t0 + t1 + t2) || !fits(x + t0 + t1 + t2) {
            None
        } else {
            Some((t0 + t1 + t2, x + t0 + t1 + t2))
        }
    }
}

/// The update rule applied to the dimensions of one particle from index
/// `j` on, drawing two fresh values per dimension — the personal pull
/// first — from a replayable source at state `s`.
pub open spec fn update_dims<R: RandomSource>(
    w: int,
    cp: int,
    cs: int,
    pos: Seq<i64>,
    vel: Seq<i64>,
    pb: Seq<i64>,
    gb: Seq<i64>,
    s: int,
    j: int,
) -> Option<(Seq<i64>, Seq<i64>, int)>
    decreases pos.len() - j,
{
    if 0 <= j < pos.len() {
        let r1 = R::draw_at(s);
        let s1 = R::step_at(s);
        let r2 = R::draw_at(s1);
        let s2 = R::step_at(s1);
        match dim_step(w, cp, cs, pos[j] as int, vel[j] as int, pb[j] as int, gb[j] as int,
            r1 as int, r2 as int) {
            None => None,
            Some(t) => update_dims::<R>(w, cp, cs, pos.update(j, t.1 as i64),
                vel.update(j, t.0 as i64), pb, gb, s2, j + 1),
        }
    } else {
        Some((pos, vel, s))
    }
}

/// The update rule applied to every particle of the swarm from index `i`
/// on. Each particle is pulled toward the one global best snapshot `gb`,
/// fixed for the whole pass.
pub open spec fn update_swarm<R: RandomSource>(
    w: int,
    cp: int,
    cs: int,
    ps: Seq<PModel>,
    gb: Seq<i64>,
    s: int,
    i: int,
) -> Option<(Seq<PModel>, int)>
    decreases ps.len() - i,
{
    if 0 <= i < ps.len() {
        match update_dims::<R>(w, cp, cs, ps[i].position, ps[i].velocity, ps[i].best, gb, s, 0) {
            None => None,
            Some(t) => update_swarm::<R>(
                w,
                cp,
                cs,
                ps.update(i, PModel {
                    position: t.0,
                    velocity: t.1,
                    fitness: ps[i].fitness,
                    best: ps[i].best,
                    best_fitness: ps[i].best_fitness,
                }),
                gb,
                t.2,
                i + 1,
            ),
        }
    } else {
        Some((ps, s))
    }
}

/// `p` with its fitness replaced.
pub open spec fn with_fitness(p: PModel, f: i64) -> PModel {
    PModel {
        position: p.position,
        velocity: p.velocity,
        fitness: f,
        best: p.best,
        best_fitness: p.best_fitness,
    }
}

/// The evaluation pass: every particle's fitness becomes the objective
/// value at its position; `None` where some value is unrepresentable.
pub open spec fn eval_model<O: Objective>(obj: O, ps: Seq<PModel>) -> Option<Seq<PModel>> {
    if forall|k: int| 0 <= k < ps.len() ==> obj.ok_on(#[trigger] ps[k].position) {
        Some(Seq::new(ps.len(), |k: int| with_fitness(ps[k], obj.value(ps[k].position) as i64)))
    } else {
        None
    }
}

/// The personal-best rule: a strictly better fitness overwrites the
/// record; a tie keeps the older best.
pub open spec fn track_particle(p: PModel) -> PModel {
    if p.fitness < p.best_fitness {
        PModel {
            position: p.position,
            velocity: p.velocity,
            fitness: p.fitness,
            best: p.position,
            best_fitness: p.fitness,
        }
    } else {
        p
    }
}

/// The personal-best rule applied to the whole swarm.
pub open spec fn track_all(ps: Seq<PModel>) -> Seq<PModel> {
    Seq::new(ps.len(), |k: int| track_particle(ps[k]))
}

/// The global-best rule: scanning from index `i`, a particle strictly
/// better than the record so far replaces it, so on an exact tie the
/// first particle scanned wins.
pub open spec fn scan_best(ps: Seq<PModel>, g: PModel, i: int) -> PModel
    decreases ps.len() - i,
{
    if i < ps.len() {
        scan_best(ps, if ps[i].fitness < g.fitness { ps[i] } else { g }, i + 1)
    } else {
        g
    }
}

/// One whole iteration: evaluation, then best tracking, then the
/// velocity/position update against the newly written global best.
pub open spec fn iterate_model<O: Objective, R: RandomSource>(
    obj: O,
    w: int,
    cp: int,
    cs: int,
    ps: Seq<PModel>,
    g: PModel,
    s: int,
) -> Option<(Seq<PModel>, PModel, int)> {
    match eval_model(obj, ps) {
        None => None,
        Some(ps1) => {
            let ps2 = track_all(ps1);
            let g2 = scan_best(ps2, g, 0);
            match update_swarm::<R>(w, cp, cs, ps2, g2.position, s, 0) {
                None => None,
                Some(u) => Some((u.0, g2, u.1)),
            }
        },
    }
}

/// `n` whole iterations in sequence.
pub open spec fn run_iters<O: Objective, R: RandomSource>(
    obj: O,
    w: int,
    cp: int,
    cs: int,
    ps: Seq<PModel>,
    g: PModel,
    s: int,
    n: int,
) -> Option<(Seq<PModel>, PModel, int)>
    decreases n,
{
    if n <= 0 {
        Some((ps, g, s))
    } else {
        match iterate_model::<O, R>(obj, w, cp, cs, ps, g, s) {
            None => None,
            Some(t) => run_iters::<O, R>(obj, w, cp, cs, t.0, t.1, t.2, n - 1),
        }
    }
}

/// Initial sampling of one particle's dimensions from index `j` on: per
/// dimension a velocity draw from `[vel_lo, vel_hi)` and then a position
/// draw from `[pos_lo, pos_hi)`.
pub open spec fn init_dims<R: RandomSource>(
    pos: Seq<i64>,
    vel: Seq<i64>,
    pos_lo: int,
    pos_hi: int,
    vel_lo: int,
    vel_hi: int,
    s: int,
    j: int,
) -> (Seq<i64>, Seq<i64>, int)
    decreases pos.len() - j,
{
    if 0 <= j < pos.len() {
        let rv = R::draw_at(s);
        let s1 = R::step_at(s);
        let rp = R::draw_at(s1);
        let s2 = R::step_at(s1);
        init_dims::<R>(
            pos.update(j, sample_val(pos_lo, pos_hi, rp as int) as i64),
            vel.update(j, sample_val(vel_lo, vel_hi, rv as int) as i64),
            pos_lo,
            pos_hi,
            vel_lo,
            vel_hi,
            s2,
            j + 1,
        )
    } else {
        (pos, vel, s)
    }
}

/// Swarm initialization from particle `i` on: each particle is sampled,
/// evaluated at once, made its own personal best, and the global best
/// record — `None` before any particle was seen — keeps the first
/// particle of minimum fitness.
pub open spec fn init_swarm<O: Objective, R: RandomSource>(
    obj: O,
    pos_lo: int,
    pos_hi: int,
    vel_lo: int,
    vel_hi: int,
    ps: Seq<PModel>,
    g: Option<PModel>,
    s: int,
    i: int,
) -> Option<(Seq<PModel>, PModel, int)>
    decreases ps.len() - i,
{
    if 0 <= i < ps.len() {
        let d = init_dims::<R>(ps[i].position, ps[i].velocity, pos_lo, pos_hi, vel_lo, vel_hi, s, 0);
        if obj.ok_on(d.0) {
            let f = obj.value(d.0) as i64;
            let p1 = PModel { position: d.0, velocity: d.1, fitness: f, best: d.0, best_fitness: f };
            let g1 = match g {
                Option::None => Option::Some(p1),
                Option::Some(gg) => if f < gg.fitness {
                    Option::Some(p1)
                } else {
                    Option::Some(gg)
                },
            };
            init_swarm::<O, R>(obj, pos_lo, pos_hi, vel_lo, vel_hi, ps.update(i, p1), g1, d.2, i + 1)
        } else {
            None
        }
    } else {
        match g {
            Option::None => None,
            Option::Some(gg) => Some((ps, gg, s)),
        }
    }
}

/// A whole run from a population of `psize` zeroed particles of
/// dimensionality `dim`: initialization followed by `iters` iterations.
pub open spec fn run_model<O: Objective, R: RandomSource>(
    obj: O,
    w: int,
    cp: int,
    cs: int,
    psize: nat,
    dim: nat,
    pos_lo: int,
    pos_hi: int,
    vel_lo: int,
    vel_hi: int,
    iters: int,
    s: int,
) -> Option<(Seq<PModel>, PModel, int)> {
    let ps0 = Seq::new(psize, |i: int| crate::particle::zero_particle(dim));
    match init_swarm::<O, R>(obj, pos_lo, pos_hi, vel_lo, vel_hi, ps0, Option::None, s, 0) {
        None => None,
        Some(t) => run_iters::<O, R>(obj, w, cp, cs, t.0, t.1, t.2, iters),
    }
}

/// The global-best scan never worsens the record it starts from.
pub proof fn lemma_scan_best_monotone(ps: Seq<PModel>, g: PModel, i: int)
    ensures
        scan_best(ps, g, i).fitness <= g.fitness,
    decreases ps.len() - i,
{
    if i < ps.len() {
        let g1 = if ps[i].fitness < g.fitness {
            ps[i]
        } else {
            g
        };
        lemma_scan_best_monotone(ps, g1, i + 1);
    }
}

/// The record the scan returns is the record it started from, or one of
/// the scanned particles; either way no scanned particle beats it.
pub proof fn lemma_scan_best_min(ps: Seq<PModel>, g: PModel, i: int)
    requires
        0 <= i <= ps.len(),
    ensures
        forall|k: int| i <= k < ps.len() ==> scan_best(ps, g, i).fitness <= #[trigger] ps[k].fitness,
        scan_best(ps, g, i) == g || exists|k: int|
            i <= k < ps.len() && scan_best(ps, g, i) == #[trigger] ps[k],
    decreases ps.len() - i,
{
    if i < ps.len() {
        let g1 = if ps[i].fitness < g.fitness {
            ps[i]
        } else {
            g
        };
        lemma_scan_best_min(ps, g1, i + 1);
        lemma_scan_best_monotone(ps, g1, i + 1);
    }
}

/// With a population of one, the global record entering an iteration is
/// the lone particle's own personal record, and best tracking keeps it
/// so: the social attractor of the update is self-referential.
pub proof fn lemma_single_particle_social(ps: Seq<PModel>, g: PModel)
    requires
        ps.len() == 1,
        g.position == ps[0].best,
        g.fitness == ps[0].best_fitness,
    ensures
        scan_best(track_all(ps), g, 0).position == track_all(ps)[0].best,
        scan_best(track_all(ps), g, 0).fitness == track_all(ps)[0].best_fitness,
{
    let p1 = track_all(ps)[0];
    assert(p1 == track_particle(ps[0]));
    assert(scan_best(track_all(ps), g, 0) == scan_best(track_all(ps),
        if p1.fitness < g.fitness { p1 } else { g }, 1));
}

} // verus!
