//! The objective function: a pluggable scalar measure over positions.

use vstd::prelude::*;
use crate::fixed::fx_mul_val;

verus! {

/// A scalar objective over fixed-point position vectors; lower is better.
///
/// The objective is injected into the optimizer at construction. An
/// implementation fixes its mathematical `value` and proves that `eval`
/// computes exactly that value whenever it is representable.
pub trait Objective: Sized {
    /// The mathematical value of the objective at `pos`.
    spec fn value(&self, pos: Seq<i64>) -> int;

    /// Whether evaluation at `pos` yields a representable value.
    spec fn ok_on(&self, pos: Seq<i64>) -> bool;

    /// Evaluates the objective at `pos`; `None` is the fixed-point
    /// counterpart of an unrepresentable (overflowing) value.
    fn eval(&self, pos: &Vec<i64>) -> (r: Option<i64>)
        ensures
            match r {
                Some(v) => self.ok_on(pos@) && v as int == self.value(pos@),
                None => !self.ok_on(pos@),
            },
    ;
}

/// The sphere value: the sum over the components of the rescaled square
/// of each component.
pub open spec fn sphere_val(pos: Seq<i64>) -> int
    decreases pos.len(),
{
    if pos.len() == 0 {
        0
    } else {
        sphere_val(pos.drop_last()) + fx_mul_val(pos.last() as int, pos.last() as int)
    }
}

/// Each term of the sphere sum is non-negative, so the whole is.
pub proof fn lemma_sphere_val_nonneg(pos: Seq<i64>)
    ensures
        sphere_val(pos) >= 0,
    decreases pos.len(),
{
    if pos.len() > 0 {
        lemma_sphere_val_nonneg(pos.drop_last());
        let x = pos.last() as int;
        assert(x * x >= 0) by (nonlinear_arith);
    }
}

/// The sphere value of a prefix is at most the value of the whole.
pub proof fn lemma_sphere_val_prefix(pos: Seq<i64>, i: int)
    requires
        0 <= i <= pos.len(),
    ensures
        sphere_val(pos.take(i)) <= sphere_val(pos),
    decreases pos.len() - i,
{
    if i < pos.len() {
        lemma_sphere_val_prefix(pos, i + 1);
        let s1 = pos.take(i + 1);
        assert(s1.drop_last() =~= pos.take(i));
        let x = s1.last() as int;
        assert(x * x >= 0) by (nonlinear_arith);
    } else {
        assert(pos.take(i) =~= pos);
    }
}

/// The sphere objective: the sum of the squares of the components.
pub struct Sphere {}

impl Objective for Sphere {
    open spec fn value(&self, pos: Seq<i64>) -> int {
        sphere_val(pos)
    }

    open spec fn ok_on(&self, pos: Seq<i64>) -> bool {
        sphere_val(pos) <= i64::MAX
    }

    fn eval(&self, pos: &Vec<i64>) -> (r: Option<i64>)
        ensures
            match r {
                Some(v) => self.ok_on(pos@) && v as int == self.value(pos@),
                None => !self.ok_on(pos@),
            },
    {
        let mut acc: i64 = 0;
        let mut i: usize = 0;
        proof {
            assert(pos@.take(0) =~= Seq::<i64>::empty());
        }
        while i < pos.len()
            invariant
                0 <= i <= pos@.len(),
                0 <= acc,
                acc as int == sphere_val(pos@.take(i as int)),
            decreases pos@.len() - i,
        {
            let x = pos[i];
            proof {
                assert(pos@.take(i + 1).drop_last() =~= pos@.take(i as int));
                assert(pos@.take(i + 1).last() == pos@[i as int]);
                assert((x as int) * (x as int) >= 0) by (nonlinear_arith);
                crate::fixed::lemma_div_unit_nonneg((x as int) * (x as int));
            }
            let sq = match crate::fixed::fx_mul(x, x) {
                Some(v) => v,
                None => {
                    proof {
                        lemma_sphere_val_prefix(pos@, i + 1);
                        lemma_sphere_val_nonneg(pos@.take(i as int));
                    }
                    return None;
                },
            };
            acc = match acc.checked_add(sq) {
                Some(v) => v,
                None => {
                    proof {
                        lemma_sphere_val_prefix(pos@, i + 1);
                    }
                    return None;
                },
            };
            i += 1;
        }
        proof {
            assert(pos@.take(i as int) =~= pos@);
        }
        Some(acc)
    }
}

} // verus!
