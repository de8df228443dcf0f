use traffic_light::clock::active_index;
use traffic_light::config_parser::{parse_config, Config};
use traffic_light::tl::{Color, State};
use traffic_light::utils::{checked_sum, cumulative_sum, sum};

fn schedule(durations: &[u64], offset: i64) -> Config {
    Config {
        states: durations
            .iter()
            .map(|&duration| State { traffic_lights_colors: vec![Color::Red], duration })
            .collect(),
        offset,
    }
}

#[test]
fn sums() {
    let config = schedule(&[4, 2, 2, 8, 2, 2], 0);
    assert_eq!(sum(&config.states), 20);
    assert_eq!(checked_sum(&config.states), Some(20));
    assert_eq!(cumulative_sum(&config.states), vec![4, 6, 8, 16, 18, 20]);
    assert_eq!(sum(&[]), 0);
    assert_eq!(cumulative_sum(&[]), Vec::<i64>::new());
}

#[test]
fn sum_at_the_edge_of_the_range() {
    let just = schedule(&[i64::MAX as u64 - 1, 1], 0);
    assert_eq!(checked_sum(&just.states), Some(i64::MAX));
    assert_eq!(sum(&just.states), i64::MAX);
    assert_eq!(cumulative_sum(&just.states), vec![i64::MAX - 1, i64::MAX]);
    let beyond = schedule(&[i64::MAX as u64, 1], 0);
    assert_eq!(checked_sum(&beyond.states), None);
    let far_beyond = schedule(&[u64::MAX, u64::MAX, 5], 0);
    assert_eq!(checked_sum(&far_beyond.states), None);
}

#[test]
fn every_second_of_a_cycle() {
    let config = schedule(&[4, 2, 2, 8, 2, 2], 0);
    let expected = [0, 0, 0, 0, 1, 1, 2, 2, 3, 3, 3, 3, 3, 3, 3, 3, 4, 4, 5, 5];
    for (t, &index) in expected.iter().enumerate() {
        assert_eq!(active_index(&config, t as i64), index, "t = {}", t);
    }
}

#[test]
fn a_boundary_belongs_to_the_state_that_starts_there() {
    let config = schedule(&[4, 2, 2, 8, 2, 2], 0);
    let cumulative = cumulative_sum(&config.states);
    for i in 1..config.states.len() {
        assert_eq!(active_index(&config, cumulative[i - 1]), i);
        assert_eq!(active_index(&config, cumulative[i - 1] - 1), i - 1);
    }
}

#[test]
fn the_active_state_repeats_with_the_cycle() {
    let config = schedule(&[4, 2, 2, 8, 2, 2], 3);
    for t in -50..50 {
        assert_eq!(active_index(&config, t), active_index(&config, t + 20), "t = {}", t);
        assert!(active_index(&config, t) < 6);
    }
}

#[test]
fn times_before_the_epoch() {
    let config = schedule(&[4, 2, 2, 8, 2, 2], 0);
    assert_eq!(active_index(&config, -1), 5);
    assert_eq!(active_index(&config, -2), 5);
    assert_eq!(active_index(&config, -3), 4);
    assert_eq!(active_index(&config, -20), 0);
    assert_eq!(active_index(&config, -21), 5);
}

#[test]
fn offsets_shift_the_cycle() {
    assert_eq!(active_index(&schedule(&[4, 2, 2, 8, 2, 2], -5), 0), 1);
    assert_eq!(active_index(&schedule(&[4, 2, 2, 8, 2, 2], 5), 0), 3);
    assert_eq!(active_index(&schedule(&[4, 2, 2, 8, 2, 2], 5), 5), 0);
    assert_eq!(active_index(&schedule(&[4, 2, 2, 8, 2, 2], 25), 5), 0);
}

#[test]
fn the_ends_of_the_range_of_times() {
    let config = schedule(&[4, 2, 2, 8, 2, 2], i64::MIN);
    // i64::MAX - i64::MIN = 2^64 - 1, and (2^64 - 1) mod 20 = 15
    assert_eq!(active_index(&config, i64::MAX), 3);
    let config = schedule(&[4, 2, 2, 8, 2, 2], i64::MAX);
    // i64::MIN - i64::MAX = -(2^64 - 1), and that mod 20 = 5
    assert_eq!(active_index(&config, i64::MIN), 1);
    let config = schedule(&[i64::MAX as u64], 0);
    assert_eq!(active_index(&config, i64::MIN), 0);
}

#[test]
fn a_state_that_does_not_last_is_never_active() {
    let config = schedule(&[4, 0, 2], 0);
    assert_eq!(active_index(&config, 3), 0);
    assert_eq!(active_index(&config, 4), 2);
    assert_eq!(active_index(&config, 5), 2);
    assert_eq!(active_index(&config, 6), 0);
    let config = schedule(&[0, 0, 3], 0);
    assert_eq!(active_index(&config, 0), 2);
}

#[test]
fn a_single_state_is_always_active() {
    let config = parse_config("g 1").unwrap();
    for t in -3..3 {
        assert_eq!(active_index(&config, t), 0);
    }
}
