//! One simulated outbreak: onsets per day, summed over the generations, and
//! the reports that the reporting delay lets through by the end of the
//! observation window.

use vstd::prelude::*;
use crate::branching::{generation_sizes, is_lineage, litters};
use crate::multinomial::{allot, is_allocation, lemma_allocation_widens, outcomes, sample_multinomial, share};
use crate::prior::Param;

verus! {

/// The result of one run: the parameters it was made with, the onsets of
/// each day and the reports of each day.
#[derive(Debug)]
pub struct Simulation<F> {
    pub pars: Param<F>,
    pub onsets: Vec<i32>,
    pub reports: Vec<i32>,
}

impl<F> Simulation<F> {
    /// The number of days that were simulated.
    pub open spec fn max_time(&self) -> nat {
        self.reports@.len()
    }

    /// Onsets and reports cover the same days, and on no day are there
    /// fewer than zero reports or more reports than onsets.
    pub open spec fn well_formed(&self) -> bool {
        &&& self.onsets.len() == self.reports.len()
        &&& forall|i: int| 0 <= i < self.reports.len() ==> 0 <= #[trigger] self.reports[i] <= self.onsets[i]
    }
}

/// The sum of two counts, held at the largest or smallest count that fits
/// where the sum does not.
pub open spec fn held_sum(a: i32, b: i32) -> i32 {
    if a + b > i32::MAX {
        i32::MAX
    } else if a + b < i32::MIN {
        i32::MIN
    } else {
        (a + b) as i32
    }
}

/// The day totals after the counts of `fresh` were added: day by day, as
/// far as `fresh` reaches. What `fresh` holds beyond the last day is left
/// out.
pub open spec fn added(totals: Seq<i32>, fresh: Seq<i32>) -> Seq<i32> {
    Seq::new(
        totals.len(),
        |i: int|
            if i < fresh.len() {
                held_sum(totals[i], fresh[i])
            } else {
                totals[i]
            },
    )
}

/// The onsets of each of `max_time` days, summed over the generations in
/// `days`.
pub open spec fn onset_totals(days: Seq<Seq<i32>>, max_time: nat) -> Seq<i32>
    decreases days.len(),
{
    if days.len() == 0 {
        Seq::new(max_time, |i: int| 0i32)
    } else {
        added(onset_totals(days.drop_last(), max_time), days.last())
    }
}

/// The outcomes that `spread` can give in one generation, as a relation
/// between the day, the number of trials and the drawn count, whatever the
/// randomness source.
pub open spec fn spreads<R, S: Fn(&mut R, usize, usize, u64) -> u64>(
    spread: &S,
    generation: usize,
) -> spec_fn(int, int, u64) -> bool {
    |day: int, trials: int, drawn: u64|
        exists|g: &mut R| #[trigger] spread.ensures((g, generation, day as usize, trials as u64), drawn)
}

/// The outcomes that `reported` can give, as a relation between the days
/// elapsed since onset, the number of onsets and the drawn count, whatever
/// the randomness source.
pub open spec fn notices<R, B: Fn(&mut R, usize, u64) -> u64>(reported: &B) -> spec_fn(int, int, u64) -> bool {
    |elapsed: int, trials: int, drawn: u64|
        exists|g: &mut R| #[trigger] reported.ensures((g, elapsed as usize, trials as u64), drawn)
}

/// The reports of day `i` are the share of a draw that `notice` admits for
/// the onsets of that day and for the days from it to the end of the
/// window.
pub open spec fn day_reported(
    notice: spec_fn(int, int, u64) -> bool,
    onsets: Seq<i32>,
    reports: Seq<i32>,
    i: int,
) -> bool {
    exists|drawn: u64|
        #[trigger] notice(onsets.len() - i, onsets[i] as int, drawn) && reports[i] == share(
            onsets[i] as int,
            drawn,
        )
}

/// `reports` thins `onsets` day by day.
pub open spec fn is_reporting(notice: spec_fn(int, int, u64) -> bool, onsets: Seq<i32>, reports: Seq<i32>) -> bool {
    &&& reports.len() == onsets.len()
    &&& forall|i: int| 0 <= i < onsets.len() ==> #[trigger] day_reported(notice, onsets, reports, i)
}

/// `sizes` and `days` describe an outbreak of `ngen` generations over
/// `max_time` days: the sizes are a lineage that starts with `initial`
/// cases, and each generation's cases are allocated over the days of the
/// window and one more bin for what falls beyond it.
pub open spec fn is_outbreak<R, O: Fn(&mut R, i32) -> i32, S: Fn(&mut R, usize, usize, u64) -> u64>(
    offspring: &O,
    spread: &S,
    initial: int,
    ngen: nat,
    max_time: nat,
    sizes: Seq<i32>,
    days: Seq<Seq<i32>>,
) -> bool {
    &&& sizes.len() == ngen
    &&& days.len() == ngen
    &&& is_lineage(litters(offspring), initial, sizes)
    &&& forall|k: int|
        0 <= k < ngen ==> (#[trigger] days[k]).len() == max_time + 1 && is_allocation(
            spreads(spread, (k + 1) as usize),
            sizes[k] as int,
            days[k],
        )
}

/// The number of days from day `day` to the end of a window of `max_time`
/// days: at least one for every day of the window.
pub fn elapsed_days(max_time: usize, day: usize) -> (elapsed: usize)
    requires
        day < max_time,
    ensures
        elapsed == max_time - day,
        1 <= elapsed <= max_time,
{
    max_time - day
}

/// The sum of two counts, held at the ends of the range where it would
/// leave it.
pub fn hold_sum(a: i32, b: i32) -> (sum: i32)
    ensures
        sum == held_sum(a, b),
{
    let wide: i64 = a as i64 + b as i64;
    if wide > i32::MAX as i64 {
        i32::MAX
    } else if wide < i32::MIN as i64 {
        i32::MIN
    } else {
        wide as i32
    }
}

/// Adds the counts of `fresh` to the day totals, day by day. Counts of
/// `fresh` beyond the last day of `totals` are left out.
pub fn add_onsets(totals: &mut Vec<i32>, fresh: &Vec<i32>)
    ensures
        final(totals)@ == added(old(totals)@, fresh@),
{
    let n: usize = totals.len();
    let mut i: usize = 0;
    while i < n && i < fresh.len()
        invariant
            n == totals.len(),
            n == old(totals).len(),
            i <= n,
            i <= fresh.len(),
            forall|j: int| 0 <= j < i ==> #[trigger] totals[j] == held_sum(old(totals)[j], fresh[j]),
            forall|j: int| i <= j < n ==> #[trigger] totals[j] == old(totals)[j],
        decreases n - i,
    {
        let sum: i32 = hold_sum(totals[i], fresh[i]);
        totals.set(i, sum);
        i = i + 1;
    }
    assert(totals@ =~= added(old(totals)@, fresh@));
}

/// Thins the onsets of each day into reports. For each day, `reported` is
/// asked how many of the day's onsets were reported by the end of the
/// window, given the days elapsed since and the number of onsets; the day
/// reports that count, capped by its onsets.
pub fn delay_reports<R, B: Fn(&mut R, usize, u64) -> u64>(r: &mut R, reported: &B, onsets: &Vec<i32>) -> (reports: Vec<i32>)
    requires
        forall|i: int| 0 <= i < onsets.len() ==> #[trigger] onsets[i] >= 0,
        forall|g: &mut R, elapsed: usize, trials: u64|
            1 <= elapsed <= onsets.len() && trials <= i32::MAX ==> #[trigger] reported.requires(
                (g, elapsed, trials),
            ),
    ensures
        is_reporting(notices(reported), onsets@, reports@),
        forall|i: int| 0 <= i < onsets.len() ==> 0 <= #[trigger] reports[i] <= onsets[i],
{
    let max_time: usize = onsets.len();
    let mut reports: Vec<i32> = Vec::new();
    let mut i: usize = 0;
    while i < max_time
        invariant
            max_time == onsets.len(),
            i <= max_time,
            reports.len() == i,
            forall|j: int| 0 <= j < onsets.len() ==> #[trigger] onsets[j] >= 0,
            forall|j: int| 0 <= j < i ==> #[trigger] day_reported(notices(reported), onsets@, reports@, j),
            forall|j: int| 0 <= j < i ==> 0 <= #[trigger] reports[j] <= onsets[j],
            forall|g: &mut R, elapsed: usize, trials: u64|
                1 <= elapsed <= onsets.len() && trials <= i32::MAX ==> #[trigger] reported.requires(
                    (g, elapsed, trials),
                ),
        decreases max_time - i,
    {
        let ghost before = reports@;
        let cases: i32 = onsets[i];
        let elapsed: usize = elapsed_days(max_time, i);
        let drawn: u64 = reported(r, elapsed, cases as u64);
        let count: i32 = allot(cases, drawn);
        reports.push(count);
        proof {
            assert(notices(reported)(max_time - i, cases as int, drawn));
            assert(day_reported(notices(reported), onsets@, reports@, i as int));
            assert forall|j: int| 0 <= j < i implies #[trigger] day_reported(
                notices(reported),
                onsets@,
                reports@,
                j,
            ) by {
                assert(day_reported(notices(reported), onsets@, before, j));
            }
        }
        i = i + 1;
    }
    reports
}

/// Determinism of the reports: where every draw is a function of what it
/// is asked, two thinnings of the same onsets are the same.
pub proof fn lemma_reporting_is_determined(
    notice: spec_fn(int, int, u64) -> bool,
    onsets: Seq<i32>,
    a: Seq<i32>,
    b: Seq<i32>,
)
    requires
        crate::multinomial::is_single_valued(notice),
        is_reporting(notice, onsets, a),
        is_reporting(notice, onsets, b),
    ensures
        a == b,
{
    assert forall|i: int| 0 <= i < onsets.len() implies a[i] == b[i] by {
        assert(day_reported(notice, onsets, a, i));
        assert(day_reported(notice, onsets, b, i));
    }
    assert(a =~= b);
}

/// Determinism of the onsets: where every draw is a function of what it is
/// asked, two outbreaks with the same initial cases, generations and
/// window have the same generation sizes, the same allocations and hence
/// the same onsets.
pub proof fn lemma_outbreak_is_determined<R, O: Fn(&mut R, i32) -> i32, S: Fn(&mut R, usize, usize, u64) -> u64>(
    offspring: &O,
    spread: &S,
    initial: int,
    ngen: nat,
    max_time: nat,
    sizes: Seq<i32>,
    days: Seq<Seq<i32>>,
    other_sizes: Seq<i32>,
    other_days: Seq<Seq<i32>>,
)
    requires
        crate::branching::is_single_valued(litters(offspring)),
        forall|generation: usize| #[trigger] crate::multinomial::is_single_valued(spreads(spread, generation)),
        is_outbreak(offspring, spread, initial, ngen, max_time, sizes, days),
        is_outbreak(offspring, spread, initial, ngen, max_time, other_sizes, other_days),
    ensures
        sizes == other_sizes,
        days == other_days,
        onset_totals(days, max_time) == onset_totals(other_days, max_time),
{
    crate::branching::lemma_lineage_is_determined(litters(offspring), initial, sizes, other_sizes);
    assert forall|k: int| 0 <= k < ngen implies days[k] == other_days[k] by {
        assert(crate::multinomial::is_single_valued(spreads(spread, (k + 1) as usize)));
        crate::multinomial::lemma_allocation_is_determined(
            spreads(spread, (k + 1) as usize),
            sizes[k] as int,
            days[k],
            other_days[k],
        );
    }
    assert(days =~= other_days);
}

/// Adding non-negative counts to day totals that are not negative leaves
/// none of them negative.
proof fn lemma_added_is_nonnegative(totals: Seq<i32>, fresh: Seq<i32>)
    requires
        forall|i: int| 0 <= i < totals.len() ==> #[trigger] totals[i] >= 0,
        forall|i: int| 0 <= i < fresh.len() ==> #[trigger] fresh[i] >= 0,
    ensures
        forall|i: int| 0 <= i < totals.len() ==> #[trigger] added(totals, fresh)[i] >= 0,
{
}

/// The day totals of an outbreak whose allocations hold no negative count
/// hold none either, and there are as many of them as the window has days.
proof fn lemma_onset_totals_are_counts(days: Seq<Seq<i32>>, max_time: nat)
    requires
        forall|k: int, i: int| 0 <= k < days.len() && 0 <= i < days[k].len() ==> #[trigger] days[k][i] >= 0,
    ensures
        onset_totals(days, max_time).len() == max_time,
        forall|i: int| 0 <= i < max_time ==> #[trigger] onset_totals(days, max_time)[i] >= 0,
    decreases days.len(),
{
    if days.len() > 0 {
        let earlier = days.drop_last();
        assert forall|k: int, i: int| 0 <= k < earlier.len() && 0 <= i < earlier[k].len() implies #[trigger] earlier[k][i]
            >= 0 by {
            assert(earlier[k] == days[k]);
        }
        lemma_onset_totals_are_counts(earlier, max_time);
        let last = days.last();
        assert forall|i: int| 0 <= i < last.len() implies #[trigger] last[i] >= 0 by {
            assert(days[days.len() - 1][i] >= 0);
        }
        lemma_added_is_nonnegative(onset_totals(earlier, max_time), last);
    }
}

/// Runs one outbreak of `ngen` generations over a window of `max_time`
/// days, starting with `initial` cases, and records it with the parameters
/// `pars` that the draws were made with.
///
/// The generation sizes come from `offspring`. The cases of generation `g`
/// (counted from one) are allocated over the days by `spread`, which is
/// given the generation, the day and the number of trials; what falls
/// beyond the window is left out of the onsets. The onsets of each day are
/// thinned into reports by `reported`, which is given the days elapsed
/// until the end of the window and the number of onsets.
pub fn simulate<F, R, O, S, B>(
    pars: Param<F>,
    r: &mut R,
    ngen: usize,
    max_time: usize,
    initial: i32,
    offspring: &O,
    spread: &S,
    reported: &B,
) -> (sim: Simulation<F>) where
    O: Fn(&mut R, i32) -> i32,
    S: Fn(&mut R, usize, usize, u64) -> u64,
    B: Fn(&mut R, usize, u64) -> u64,

    requires
        initial >= 0,
        max_time < usize::MAX,
        forall|g: &mut R, parents: i32| parents > 0 ==> #[trigger] offspring.requires((g, parents)),
        forall|g: &mut R, generation: usize, day: usize, trials: u64|
            1 <= generation <= ngen && day < max_time && trials <= i32::MAX ==> #[trigger] spread.requires(
                (g, generation, day, trials),
            ),
        forall|g: &mut R, elapsed: usize, trials: u64|
            1 <= elapsed <= max_time && trials <= i32::MAX ==> #[trigger] reported.requires(
                (g, elapsed, trials),
            ),
    ensures
        sim.pars == pars,
        sim.max_time() == max_time,
        sim.well_formed(),
        exists|sizes: Seq<i32>, days: Seq<Seq<i32>>|
            #[trigger] is_outbreak(offspring, spread, initial as int, ngen as nat, max_time as nat, sizes, days)
                && sim.onsets@ == onset_totals(days, max_time as nat),
        is_reporting(notices(reported), sim.onsets@, sim.reports@),
{
    let sizes: Vec<i32> = generation_sizes(r, offspring, initial, ngen);
    let mut onsets: Vec<i32> = Vec::new();
    let mut d: usize = 0;
    while d < max_time
        invariant
            d <= max_time,
            onsets.len() == d,
            forall|i: int| 0 <= i < d ==> #[trigger] onsets[i] == 0,
        decreases max_time - d,
    {
        onsets.push(0);
        d = d + 1;
    }
    let ghost mut days: Seq<Seq<i32>> = Seq::empty();
    assert(onsets@ =~= onset_totals(days, max_time as nat));
    let mut k: usize = 0;
    while k < ngen
        invariant
            k <= ngen,
            max_time < usize::MAX,
            sizes.len() == ngen,
            forall|j: int| 0 <= j < ngen ==> #[trigger] sizes[j] >= 0,
            days.len() == k,
            onsets@ == onset_totals(days, max_time as nat),
            forall|j: int|
                0 <= j < k ==> (#[trigger] days[j]).len() == max_time + 1 && is_allocation(
                    spreads(spread, (j + 1) as usize),
                    sizes[j] as int,
                    days[j],
                ),
            forall|j: int, i: int| 0 <= j < k && 0 <= i < days[j].len() ==> #[trigger] days[j][i] >= 0,
            forall|g: &mut R, generation: usize, day: usize, trials: u64|
                1 <= generation <= ngen && day < max_time && trials <= i32::MAX ==> #[trigger] spread.requires(
                    (g, generation, day, trials),
                ),
        decreases ngen - k,
    {
        let generation: usize = k + 1;
        let size: i32 = sizes[k];
        let draw = |g: &mut R, day: usize, trials: u64| -> (drawn: u64)
            requires
                day < max_time,
                trials <= i32::MAX,
            ensures
                exists|h: &mut R| #[trigger] spread.ensures((h, generation, day, trials), drawn),
            { spread(g, generation, day, trials) };
        let fresh: Vec<i32> = sample_multinomial(r, &draw, max_time + 1, size);
        proof {
            assert forall|bin: int, trials: int, drawn: u64| #[trigger]
                outcomes(&draw)(bin, trials, drawn) implies spreads(spread, generation)(bin, trials, drawn) by {
                let g = choose|g: &mut R| #[trigger] draw.ensures((g, bin as usize, trials as u64), drawn);
                assert(draw.ensures((g, bin as usize, trials as u64), drawn));
            }
            lemma_allocation_widens(outcomes(&draw), spreads(spread, generation), size as int, fresh@);
            let ghost earlier = days;
            days = days.push(fresh@);
            assert(days.drop_last() =~= earlier);
            assert forall|j: int|
                0 <= j < k + 1 implies (#[trigger] days[j]).len() == max_time + 1 && is_allocation(
                spreads(spread, (j + 1) as usize),
                sizes[j] as int,
                days[j],
            ) by {
                if j < k {
                    assert(days[j] == earlier[j]);
                }
            }
            assert forall|j: int, i: int| 0 <= j < k + 1 && 0 <= i < days[j].len() implies #[trigger] days[j][i]
                >= 0 by {
                if j < k {
                    assert(days[j] == earlier[j]);
                    assert(earlier[j][i] >= 0);
                } else {
                    assert(fresh[i] >= 0);
                }
            }
        }
        add_onsets(&mut onsets, &fresh);
        k = k + 1;
    }
    proof {
        lemma_onset_totals_are_counts(days, max_time as nat);
        assert(is_outbreak(offspring, spread, initial as int, ngen as nat, max_time as nat, sizes@, days));
    }
    let reports: Vec<i32> = delay_reports(r, reported, &onsets);
    Simulation { pars, onsets, reports }
}

} // verus!
