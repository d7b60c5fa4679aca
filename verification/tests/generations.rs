use rand::rngs::SmallRng;
use rand::SeedableRng;
use rand_distr::{Distribution, Poisson};
use remyrust::branching::{generation_sizes, next_generation};

// The randomness source of these tests is a log of what the draw was asked.
type Asked = Vec<i32>;

#[test]
fn next_generation_is_the_draw() {
    assert_eq!(next_generation(4, 11), 11);
    assert_eq!(next_generation(1, 0), 0);
}

#[test]
fn next_generation_after_extinction_is_empty() {
    assert_eq!(next_generation(0, 9), 0);
    assert_eq!(next_generation(0, i32::MAX), 0);
}

#[test]
fn next_generation_counts_a_negative_draw_as_zero() {
    assert_eq!(next_generation(4, -2), 0);
    assert_eq!(next_generation(4, i32::MIN), 0);
}

#[test]
fn sizes_start_with_the_initial_cases() {
    let mut asked: Asked = Vec::new();
    let offspring = |log: &mut Asked, parents: i32| -> i32 {
        log.push(parents);
        2 * parents
    };
    let sizes = generation_sizes(&mut asked, &offspring, 3, 4);
    assert_eq!(sizes, vec![3, 6, 12, 24]);
    assert_eq!(asked, vec![3, 6, 12]);
}

#[test]
fn no_generations_are_no_sizes() {
    let mut asked: Asked = Vec::new();
    let offspring = |log: &mut Asked, parents: i32| -> i32 {
        log.push(parents);
        parents
    };
    let sizes = generation_sizes(&mut asked, &offspring, 3, 0);
    assert!(sizes.is_empty());
    assert!(asked.is_empty());
}

#[test]
fn extinction_is_absorbing() {
    let mut asked: Asked = Vec::new();
    let offspring = |log: &mut Asked, parents: i32| -> i32 {
        log.push(parents);
        parents - 2
    };
    let sizes = generation_sizes(&mut asked, &offspring, 4, 6);
    assert_eq!(sizes, vec![4, 2, 0, 0, 0, 0]);
    assert_eq!(asked, vec![4, 2]);
}

#[test]
fn an_outbreak_without_cases_never_draws() {
    let mut asked: Asked = Vec::new();
    let offspring = |log: &mut Asked, parents: i32| -> i32 {
        log.push(parents);
        100
    };
    let sizes = generation_sizes(&mut asked, &offspring, 0, 5);
    assert_eq!(sizes, vec![0, 0, 0, 0, 0]);
    assert!(asked.is_empty());
}

#[test]
fn a_negative_draw_ends_the_outbreak() {
    let mut asked: Asked = Vec::new();
    let offspring = |log: &mut Asked, parents: i32| -> i32 {
        log.push(parents);
        -1
    };
    let sizes = generation_sizes(&mut asked, &offspring, 5, 3);
    assert_eq!(sizes, vec![5, 0, 0]);
    assert_eq!(asked, vec![5]);
}

#[test]
fn poisson_generations_stay_extinct_whatever_the_rate() {
    for r0 in [0.05, 0.5, 3.0] {
        let offspring = |r: &mut SmallRng, parents: i32| -> i32 {
            Poisson::new(r0 * parents as f64).unwrap().sample(r) as i32
        };
        for seed in 0..20 {
            let mut rng = SmallRng::seed_from_u64(seed);
            let sizes = generation_sizes(&mut rng, &offspring, 2, 12);
            assert_eq!(sizes.len(), 12);
            assert_eq!(sizes[0], 2);
            assert!(sizes.iter().all(|s| *s >= 0));
            if let Some(first) = sizes.iter().position(|s| *s == 0) {
                assert!(sizes[first..].iter().all(|s| *s == 0));
            }
        }
    }
}
