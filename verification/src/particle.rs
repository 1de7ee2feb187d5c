//! A particle: one candidate solution and its best-known record.

use vstd::prelude::*;

verus! {

/// One candidate solution of the swarm. All coordinates are fixed-point
/// numbers counting millionths.
#[derive(Debug)]
pub struct Particle {
    /// The current candidate solution.
    pub position: Vec<i64>,
    /// The per-dimension step applied each iteration.
    pub velocity: Vec<i64>,
    /// The objective value at `position`, recomputed every iteration.
    pub fitness: i64,
    /// The best position this particle has ever occupied.
    pub best: Vec<i64>,
    /// The objective value at `best`.
    pub best_fitness: i64,
}

/// The mathematical model of a particle.
#[verifier::ext_equal]
pub struct PModel {
    /// The current candidate solution.
    pub position: Seq<i64>,
    /// The per-dimension step applied each iteration.
    pub velocity: Seq<i64>,
    /// The objective value at `position`.
    pub fitness: i64,
    /// The best position this particle has ever occupied.
    pub best: Seq<i64>,
    /// The objective value at `best`.
    pub best_fitness: i64,
}

impl PModel {
    /// Whether every vector of the particle has length `dim`.
    pub open spec fn wf(self, dim: int) -> bool {
        self.position.len() == dim && self.velocity.len() == dim && self.best.len() == dim
    }
}

impl View for Particle {
    type V = PModel;

    open spec fn view(&self) -> PModel {
        PModel {
            position: self.position@,
            velocity: self.velocity@,
            fitness: self.fitness,
            best: self.best@,
            best_fitness: self.best_fitness,
        }
    }
}

/// The model of a freshly constructed particle: all vectors of length
/// `dim` holding zeroes, both fitness records at the zero sentinel.
pub open spec fn zero_particle(dim: nat) -> PModel {
    PModel {
        position: Seq::new(dim, |i: int| 0i64),
        velocity: Seq::new(dim, |i: int| 0i64),
        fitness: 0,
        best: Seq::new(dim, |i: int| 0i64),
        best_fitness: 0,
    }
}

/// A vector of `dim` zeroes.
fn zero_vec(dim: usize) -> (r: Vec<i64>)
    ensures
        r@ == Seq::new(dim as nat, |i: int| 0i64),
{
    let mut v: Vec<i64> = Vec::new();
    while v.len() < dim
        invariant
            v@.len() <= dim,
            v@ =~= Seq::new(v@.len(), |i: int| 0i64),
        decreases dim - v@.len(),
    {
        v.push(0);
    }
    proof {
        assert(v@ =~= Seq::new(dim as nat, |i: int| 0i64));
    }
    v
}

impl Particle {
    /// A particle of dimensionality `dim`, all vectors zeroed and the
    /// fitness records at the zero sentinel, pending first evaluation.
    pub fn new(dim: usize) -> (r: Particle)
        ensures
            r@ =~= zero_particle(dim as nat),
    {
        Particle {
            fitness: 0,
            best_fitness: 0,
            best: zero_vec(dim),
            position: zero_vec(dim),
            velocity: zero_vec(dim),
        }
    }
}

/// A copy of an `i64` vector.
pub(crate) fn copy_vec(v: &Vec<i64>) -> (r: Vec<i64>)
    ensures
        r@ == v@,
{
    let mut out: Vec<i64> = Vec::new();
    let mut i: usize = 0;
    while i < v.len()
        invariant
            0 <= i <= v@.len(),
            out@ =~= v@.take(i as int),
        decreases v@.len() - i,
    {
        out.push(v[i]);
        i += 1;
    }
    proof {
        assert(out@ =~= v@);
    }
    out
}

impl Clone for Particle {
    /// A deep copy: the vectors are copied, never aliased, so a stored
    /// best snapshot is immune to later mutation of the source.
    fn clone(&self) -> (r: Particle)
        ensures
            r@ == self@,
    {
        Particle {
            position: copy_vec(&self.position),
            velocity: copy_vec(&self.velocity),
            fitness: self.fitness,
            best: copy_vec(&self.best),
            best_fitness: self.best_fitness,
        }
    }
}

} // verus!
