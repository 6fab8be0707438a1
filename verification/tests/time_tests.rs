use lttp_autotimer::check::Check;
use lttp_autotimer::event::EventEnum;
use lttp_autotimer::time::{RunStatistics, SequenceStatistics, SingleRunStats, TimeVerdict};

fn run(times: &[i64]) -> Vec<(EventEnum, i64)> {
    times.iter().map(|t| (EventEnum::ItemGet(Check::new(0)), *t)).collect()
}

#[test]
fn run_duration_is_first_to_last() {
    assert_eq!(run(&[100, 250, 400]).to_duration(), 300);
}

#[test]
fn objective_duration_is_from_the_one_before() {
    let r = run(&[100, 250, 400]);
    assert_eq!(r.objective_duration(0), None);
    assert_eq!(r.objective_duration(1), Some(150));
    assert_eq!(r.objective_duration(2), Some(150));
    assert_eq!(r.objective_duration(3), None);
}

#[test]
fn minimum_times() {
    let runs = vec![run(&[0, 10, 30]), run(&[0, 5, 40]), run(&[0, 20])];
    assert_eq!(runs.run_time_min(), Some(20));
    assert_eq!(runs.objective_time_min(1), Some(5));
    assert_eq!(runs.objective_time_min(2), Some(20));
    assert_eq!(runs.objective_time_min(3), None);
    let none: Vec<Vec<(EventEnum, i64)>> = vec![];
    assert_eq!(none.run_time_min(), None);
}

#[test]
fn new_best_objective_time() {
    let runs = vec![run(&[0, 10]), run(&[0, 8])];
    assert!(runs.new_best_objective_time(1, &7));
    assert!(!runs.new_best_objective_time(1, &8));
    assert!(runs.new_best_objective_time(2, &1000));
}

#[test]
fn averages_round_toward_zero() {
    let runs = vec![run(&[0, 10]), run(&[0, 20]), run(&[0, 31])];
    assert_eq!(runs.avg(), 20);
    assert_eq!(runs.rolling_avg(2), 15);
    assert_eq!(runs.rolling_avg(10), 20);
}

#[test]
fn verdicts_around_the_best_time() {
    let runs = vec![run(&[0, 1000])];
    match runs.run_time_verdict(&900) {
        TimeVerdict::Best(d) => assert_eq!(d, 100),
        _ => panic!("expected a best"),
    }
    match runs.run_time_verdict(&1020) {
        TimeVerdict::Within(skew) => assert_eq!(skew, 38),
        _ => panic!("expected a match"),
    }
    match runs.run_time_verdict(&963) {
        TimeVerdict::Within(_) => {}
        _ => panic!("expected a match at the lower edge"),
    }
    match runs.run_time_verdict(&962) {
        TimeVerdict::Within(_) => {}
        _ => panic!("expected a match on the margin"),
    }
    match runs.run_time_verdict(&961) {
        TimeVerdict::Best(d) => assert_eq!(d, 39),
        _ => panic!("expected a best just past the margin"),
    }
    match runs.run_time_verdict(&1038) {
        TimeVerdict::Bad(d) => assert_eq!(d, 38),
        _ => panic!("expected worse at the upper edge"),
    }
    let none: Vec<Vec<(EventEnum, i64)>> = vec![];
    match none.run_time_verdict(&5) {
        TimeVerdict::Best(d) => assert_eq!(d, 0),
        _ => panic!("the first run is a best"),
    }
    match runs.objective_time_verdict(1, &2000) {
        TimeVerdict::Bad(d) => assert_eq!(d, 1000),
        _ => panic!("expected worse"),
    }
}

#[test]
fn sequence_averages() {
    let durations: Vec<i64> = vec![10, 20, 30, -5];
    assert_eq!(SequenceStatistics::avg(&durations), 13);
    assert_eq!(SequenceStatistics::rolling_avg(&durations, 2), 12);
    assert_eq!(SequenceStatistics::rolling_avg(&durations, 9), 13);
    let negative: Vec<i64> = vec![-7, -2];
    assert_eq!(SequenceStatistics::avg(&negative), -4);
}
