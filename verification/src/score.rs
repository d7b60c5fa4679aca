//! Scoring a simulated report curve against an observed one.

use vstd::prelude::*;
use crate::error::LengthMismatchError;
use crate::simulation::Simulation;

verus! {

/// A discrepancy between a simulated and an observed series: a real number
/// or an exact integer.
#[derive(Debug)]
pub enum Distance<F> {
    Real(F),
    Integer(u128),
}

/// The square of the difference of two counts.
pub open spec fn squared_gap(a: i32, b: i32) -> int {
    (a - b) * (a - b)
}

/// The sum of the squared differences of two series, position by position,
/// as far as both reach.
pub open spec fn sum_squared_gaps(a: Seq<i32>, b: Seq<i32>) -> int
    decreases a.len(),
{
    if a.len() == 0 || b.len() < a.len() {
        0
    } else {
        sum_squared_gaps(a.drop_last(), b.take(a.len() - 1)) + squared_gap(a.last(), b[a.len() - 1])
    }
}

/// The largest square that the difference of two counts can have.
pub open spec fn widest_gap() -> int {
    0xffff_fffe_0000_0001
}

/// A squared difference is neither negative nor above the widest gap.
pub proof fn lemma_squared_gap_bounds(a: i32, b: i32)
    ensures
        0 <= squared_gap(a, b) <= widest_gap(),
{
    let d: int = a - b;
    assert(-0xffff_ffff <= d <= 0xffff_ffff);
    assert(0 <= d * d <= 0xffff_ffff * 0xffff_ffff) by (nonlinear_arith)
        requires
            -0xffff_ffff <= d <= 0xffff_ffff,
    ;
}

/// The sum over the first `i + 1` positions is the sum over the first `i`
/// and the squared difference at position `i`.
pub proof fn lemma_sum_squared_gaps_step(a: Seq<i32>, b: Seq<i32>, i: int)
    requires
        0 <= i < a.len(),
        a.len() == b.len(),
    ensures
        sum_squared_gaps(a.take(i + 1), b.take(i + 1)) == sum_squared_gaps(a.take(i), b.take(i))
            + squared_gap(a[i], b[i]),
{
    assert(a.take(i + 1).drop_last() =~= a.take(i));
    assert(b.take(i + 1).take(i) =~= b.take(i));
}

/// The reference scorer: the sum of the squared differences between the
/// observed counts and the simulated reports, day by day. An observed
/// series that has not one value for each simulated day is rejected.
pub fn score_mse<F>(sim: &Simulation<F>, obs: &Vec<i32>) -> (scored: Result<Distance<F>, LengthMismatchError>)
    ensures
        obs.len() != sim.reports.len() ==> scored == Err::<Distance<F>, LengthMismatchError>(
            (LengthMismatchError { expected: sim.reports.len(), found: obs.len() }),
        ),
        obs.len() == sim.reports.len() ==> scored == Ok::<Distance<F>, LengthMismatchError>(
            Distance::Integer(sum_squared_gaps(obs@, sim.reports@) as u128),
        ) && sum_squared_gaps(obs@, sim.reports@) <= u128::MAX,
{
    let n: usize = sim.reports.len();
    if obs.len() != n {
        return Err(LengthMismatchError { expected: n, found: obs.len() });
    }
    let mut acc: u128 = 0;
    let mut i: usize = 0;
    while i < n
        invariant
            n == sim.reports.len(),
            n == obs.len(),
            i <= n,
            acc == sum_squared_gaps(obs@.take(i as int), sim.reports@.take(i as int)),
            acc <= i * widest_gap(),
        decreases n - i,
    {
        let gap: i64 = obs[i] as i64 - sim.reports[i] as i64;
        proof {
            lemma_squared_gap_bounds(obs[i as int], sim.reports[i as int]);
            lemma_sum_squared_gaps_step(obs@, sim.reports@, i as int);
            assert((i + 1) * widest_gap() == i * widest_gap() + widest_gap()) by (nonlinear_arith);
            assert((i + 1) * widest_gap() <= 0xffff_ffff_ffff_ffff * widest_gap()) by (nonlinear_arith)
                requires
                    i + 1 <= 0xffff_ffff_ffff_ffff,
            ;
            assert(gap * gap == squared_gap(obs[i as int], sim.reports[i as int]));
        }
        let wide: i128 = gap as i128;
        let square: u128 = (wide * wide) as u128;
        acc = acc + square;
        i = i + 1;
    }
    proof {
        assert(obs@.take(n as int) =~= obs@);
        assert(sim.reports@.take(n as int) =~= sim.reports@);
    }
    Ok(Distance::Integer(acc))
}

impl<F> Simulation<F> {
    /// The distance between this simulation's reports and the observed
    /// series `obs`, by the scorer `f`. An observed series that has not one
    /// value for each simulated day is rejected before `f` is asked.
    pub fn distance<S: Fn(&Self, &Vec<i32>) -> Result<Distance<F>, LengthMismatchError>>(
        &self,
        f: S,
        obs: &Vec<i32>,
    ) -> (scored: Result<Distance<F>, LengthMismatchError>)
        requires
            obs.len() == self.reports.len() ==> f.requires((self, obs)),
        ensures
            obs.len() != self.reports.len() ==> scored == Err::<Distance<F>, LengthMismatchError>(
                (LengthMismatchError { expected: self.reports.len(), found: obs.len() }),
            ),
            obs.len() == self.reports.len() ==> f.ensures((self, obs), scored),
    {
        if obs.len() != self.reports.len() {
            return Err(LengthMismatchError { expected: self.reports.len(), found: obs.len() });
        }
        f(self, obs)
    }
}

} // verus!
