use puruspe::{erf, gammp};
use rand::rngs::SmallRng;
use rand::SeedableRng;
use rand_distr::{Binomial, Distribution, Poisson};
use remyrust::prior::Param;
use remyrust::simulation::{add_onsets, delay_reports, elapsed_days, hold_sum, simulate, Simulation};

fn pars() -> Param<f64> {
    Param { r0: 1.5, gt_shape: 2.0, gt_scale: 2.0, del_mean: 1.6, del_sd: 0.5, i0: 5.0 }
}

// What the draws of a run were asked, in the order in which they were asked.
#[derive(Debug, PartialEq)]
enum Asked {
    Offspring(i32),
    Spread(usize, usize, u64),
    Reported(usize, u64),
}

#[test]
fn hold_sum_adds() {
    assert_eq!(hold_sum(2, 3), 5);
    assert_eq!(hold_sum(-2, 3), 1);
    assert_eq!(hold_sum(0, 0), 0);
}

#[test]
fn hold_sum_stops_at_the_ends_of_the_range() {
    assert_eq!(hold_sum(i32::MAX, 1), i32::MAX);
    assert_eq!(hold_sum(i32::MAX, i32::MAX), i32::MAX);
    assert_eq!(hold_sum(i32::MIN, -1), i32::MIN);
    assert_eq!(hold_sum(i32::MAX - 1, 1), i32::MAX);
}

#[test]
fn elapsed_days_count_down_to_one() {
    assert_eq!(elapsed_days(25, 0), 25);
    assert_eq!(elapsed_days(25, 10), 15);
    assert_eq!(elapsed_days(25, 24), 1);
    assert_eq!(elapsed_days(1, 0), 1);
}

#[test]
fn add_onsets_leaves_out_what_falls_beyond_the_window() {
    let mut totals: Vec<i32> = vec![1, 0, 4];
    add_onsets(&mut totals, &vec![2, 2, 2, 9]);
    assert_eq!(totals, vec![3, 2, 6]);
}

#[test]
fn add_onsets_keeps_days_that_nothing_is_added_to() {
    let mut totals: Vec<i32> = vec![1, 0, 4];
    add_onsets(&mut totals, &vec![5]);
    assert_eq!(totals, vec![6, 0, 4]);
    add_onsets(&mut totals, &vec![]);
    assert_eq!(totals, vec![6, 0, 4]);
}

#[test]
fn add_onsets_holds_a_day_at_the_largest_count() {
    let mut totals: Vec<i32> = vec![i32::MAX - 1, 5];
    add_onsets(&mut totals, &vec![5, 1, 99]);
    assert_eq!(totals, vec![i32::MAX, 6]);
}

#[test]
fn delay_reports_asks_with_the_days_elapsed() {
    let mut asked: Vec<Asked> = Vec::new();
    let reported = |log: &mut Vec<Asked>, elapsed: usize, trials: u64| -> u64 {
        log.push(Asked::Reported(elapsed, trials));
        elapsed as u64
    };
    let reports = delay_reports(&mut asked, &reported, &vec![5, 0, 2, 7]);
    assert_eq!(reports, vec![4, 0, 2, 1]);
    assert_eq!(
        asked,
        vec![Asked::Reported(4, 5), Asked::Reported(3, 0), Asked::Reported(2, 2), Asked::Reported(1, 7)]
    );
}

#[test]
fn delay_reports_of_no_days_are_none() {
    let mut asked: Vec<Asked> = Vec::new();
    let reported = |log: &mut Vec<Asked>, elapsed: usize, trials: u64| -> u64 {
        log.push(Asked::Reported(elapsed, trials));
        1
    };
    assert!(delay_reports(&mut asked, &reported, &vec![]).is_empty());
    assert!(asked.is_empty());
}

fn logged(initial: i32, ngen: usize, max_time: usize) -> (Simulation<f64>, Vec<Asked>) {
    let mut asked: Vec<Asked> = Vec::new();
    let offspring = |log: &mut Vec<Asked>, parents: i32| -> i32 {
        log.push(Asked::Offspring(parents));
        parents + 1
    };
    let spread = |log: &mut Vec<Asked>, generation: usize, day: usize, trials: u64| -> u64 {
        log.push(Asked::Spread(generation, day, trials));
        1
    };
    let reported = |log: &mut Vec<Asked>, elapsed: usize, trials: u64| -> u64 {
        log.push(Asked::Reported(elapsed, trials));
        elapsed as u64
    };
    let sim = simulate(pars(), &mut asked, ngen, max_time, initial, &offspring, &spread, &reported);
    (sim, asked)
}

#[test]
fn simulate_sums_the_generations_day_by_day() {
    let (sim, _) = logged(4, 2, 3);
    // generation 1 spreads 4 cases as 1, 1, 1 and 1 beyond the window;
    // generation 2 spreads 5 cases as 1, 1, 1 and 2 beyond the window
    assert_eq!(sim.onsets, vec![2, 2, 2]);
    assert_eq!(sim.reports, vec![2, 2, 1]);
    assert_eq!(sim.pars.r0, 1.5);
    assert_eq!(sim.pars.i0, 5.0);
}

#[test]
fn simulate_asks_for_each_draw_with_what_is_left() {
    let (_, asked) = logged(4, 2, 3);
    assert_eq!(
        asked,
        vec![
            Asked::Offspring(4),
            Asked::Spread(1, 0, 4),
            Asked::Spread(1, 1, 3),
            Asked::Spread(1, 2, 2),
            Asked::Spread(2, 0, 5),
            Asked::Spread(2, 1, 4),
            Asked::Spread(2, 2, 3),
            Asked::Reported(3, 2),
            Asked::Reported(2, 2),
            Asked::Reported(1, 2),
        ]
    );
}

#[test]
fn simulate_without_generations_has_no_onsets() {
    let (sim, asked) = logged(4, 0, 3);
    assert_eq!(sim.onsets, vec![0, 0, 0]);
    assert_eq!(sim.reports, vec![0, 0, 0]);
    assert_eq!(asked, vec![Asked::Reported(3, 0), Asked::Reported(2, 0), Asked::Reported(1, 0)]);
}

#[test]
fn simulate_without_days_has_empty_series() {
    let (sim, _) = logged(4, 3, 0);
    assert!(sim.onsets.is_empty());
    assert!(sim.reports.is_empty());
}

#[test]
fn simulate_without_cases_stays_empty() {
    let (sim, asked) = logged(0, 3, 2);
    assert_eq!(sim.onsets, vec![0, 0]);
    assert_eq!(sim.reports, vec![0, 0]);
    assert!(asked.iter().all(|a| !matches!(a, Asked::Offspring(_))));
}

fn gamma_cdf(x: f64, shape: f64, rate: f64) -> f64 {
    gammp(shape, rate * x)
}

fn lognormal_cdf(x: f64, mu: f64, sigma: f64) -> f64 {
    0.5 * (1.0 + erf((x.ln() - mu) / (sigma * 2.0_f64.sqrt())))
}

// The chance that a case of generation `generation` has its onset on each
// day, given that it had it on none of the days before.
fn conditional_pmf(p: &Param<f64>, generation: usize, max_time: usize) -> Vec<f64> {
    let offset = p.gt_shape / p.gt_scale;
    let mut rho = 1.0;
    let mut out: Vec<f64> = Vec::new();
    for day in 1..=max_time {
        let t = day as f64 + offset;
        let mass = (gamma_cdf(t, p.gt_shape * generation as f64, p.gt_scale)
            - gamma_cdf(t - 1.0, p.gt_shape * generation as f64, p.gt_scale))
        .max(0.0);
        out.push(if rho > 0.0 { (mass / rho).clamp(0.0, 1.0) } else { 0.0 });
        rho -= mass;
    }
    out
}

fn seeded(seed: u64, ngen: usize, max_time: usize) -> Simulation<f64> {
    let p = pars();
    let tables: Vec<Vec<f64>> = (1..=ngen).map(|g| conditional_pmf(&p, g, max_time)).collect();
    let offspring = |r: &mut SmallRng, parents: i32| -> i32 {
        Poisson::new(p.r0 * parents as f64).unwrap().sample(r) as i32
    };
    let spread = |r: &mut SmallRng, generation: usize, day: usize, trials: u64| -> u64 {
        Binomial::new(trials, tables[generation - 1][day]).unwrap().sample(r)
    };
    let reported = |r: &mut SmallRng, elapsed: usize, trials: u64| -> u64 {
        let chance = lognormal_cdf(elapsed as f64, p.del_mean, p.del_sd).clamp(0.0, 1.0);
        Binomial::new(trials, chance).unwrap().sample(r)
    };
    let mut rng = SmallRng::seed_from_u64(seed);
    simulate(pars(), &mut rng, ngen, max_time, p.i0 as i32, &offspring, &spread, &reported)
}

#[test]
fn simulate_repeats_itself_under_one_seed() {
    let first = seeded(2024, 5, 25);
    let second = seeded(2024, 5, 25);
    assert_eq!(first.onsets, second.onsets);
    assert_eq!(first.reports, second.reports);
}

#[test]
fn simulate_reports_no_more_than_the_onsets() {
    for seed in 0..10 {
        let sim = seeded(seed, 5, 25);
        assert_eq!(sim.onsets.len(), 25);
        assert_eq!(sim.reports.len(), 25);
        for day in 0..25 {
            assert!(0 <= sim.reports[day] && sim.reports[day] <= sim.onsets[day]);
        }
    }
}
