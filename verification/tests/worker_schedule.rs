use nanovna_saver::schedule::{PointCounter, SweepSchedule, WorkerAction};

fn run_all(num_sweeps: usize, num_ports: usize, fail_at: Option<usize>) -> Vec<(u8, usize)> {
    let (mut schedule, mut action) = SweepSchedule::start(num_sweeps, num_ports, None, false);
    let mut fetched = Vec::new();
    while let WorkerAction::Fetch { data_idx, sweep } = action {
        fetched.push((data_idx, sweep));
        let ok = fail_at != Some(fetched.len() - 1);
        action = schedule.on_fetched(ok, false);
    }
    fetched
}

#[test]
fn two_ports_fetch_s11_then_s21_per_sweep() {
    assert_eq!(run_all(3, 2, None), vec![(0, 0), (1, 0), (0, 1), (1, 1), (0, 2), (1, 2)]);
}

#[test]
fn one_port_fetches_only_s11() {
    assert_eq!(run_all(3, 1, None), vec![(0, 0), (0, 1), (0, 2)]);
    assert_eq!(run_all(2, 4, None), vec![(0, 0), (0, 1)]);
}

#[test]
fn no_sweeps_fetch_nothing() {
    assert!(run_all(0, 2, None).is_empty());
}

#[test]
fn a_failed_fetch_ends_the_worker() {
    assert_eq!(run_all(3, 2, Some(1)), vec![(0, 0), (1, 0)]);
    assert_eq!(run_all(3, 2, Some(0)), vec![(0, 0)]);
}

#[test]
fn a_stop_request_ends_before_the_next_sweep() {
    let (mut schedule, first) = SweepSchedule::start(5, 2, None, false);
    assert_eq!(first, WorkerAction::Fetch { data_idx: 0, sweep: 0 });
    assert_eq!(schedule.on_fetched(true, true), WorkerAction::Fetch { data_idx: 1, sweep: 0 });
    assert_eq!(schedule.on_fetched(true, true), WorkerAction::Done);
    assert_eq!(schedule.on_fetched(true, false), WorkerAction::Done);
    let (_, first) = SweepSchedule::start(5, 2, None, true);
    assert_eq!(first, WorkerAction::Done);
}

#[test]
fn point_counter_stops_at_the_limit() {
    let mut c = PointCounter::new(3);
    assert_eq!(c.accept(), (0, false));
    assert_eq!(c.accept(), (1, false));
    assert_eq!(c.accept(), (2, true));
    let mut one = PointCounter::new(0);
    assert_eq!(one.accept(), (0, true));
}

#[test]
fn bandwidth_is_set_before_the_first_sweep() {
    let (mut schedule, first) = SweepSchedule::start(2, 1, Some(10), false);
    assert_eq!(first, WorkerAction::SetBandwidth { bandwidth: 10 });
    assert_eq!(schedule.on_fetched(false, false), WorkerAction::Fetch { data_idx: 0, sweep: 0 });
    assert_eq!(schedule.on_fetched(true, false), WorkerAction::Fetch { data_idx: 0, sweep: 1 });
    assert_eq!(schedule.on_fetched(true, false), WorkerAction::Done);

    let (mut schedule, _) = SweepSchedule::start(0, 2, Some(10), false);
    assert_eq!(schedule.on_fetched(true, false), WorkerAction::Done);
    let (mut schedule, _) = SweepSchedule::start(3, 2, Some(10), false);
    assert_eq!(schedule.on_fetched(true, true), WorkerAction::Done);
}
