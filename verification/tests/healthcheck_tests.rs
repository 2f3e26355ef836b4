use port_plumber::config::HealthcheckCmdConfig;
use port_plumber::healthcheck::{poll_outcome, HealthPoll, HealthcheckCommand};

fn healthcheck(timeout_millis: u64) -> HealthcheckCommand {
    HealthcheckCommand::new(HealthcheckCmdConfig {
        command: String::from("true"),
        args: Vec::new(),
        timeout_millis,
    })
}

#[test]
fn interval_ladder_for_8000() {
    let h = healthcheck(8000);
    assert_eq!(h.healthcheck_intervals(), vec![8000, 4000, 2000, 1000]);
}

#[test]
fn interval_ladder_for_5000() {
    let h = healthcheck(5000);
    assert_eq!(h.healthcheck_intervals(), vec![5000, 2500, 1250, 625]);
}

#[test]
fn interval_ladder_small_budget_is_single() {
    let h = healthcheck(900);
    assert_eq!(h.healthcheck_intervals(), vec![900]);
    let h = healthcheck(1000);
    assert_eq!(h.healthcheck_intervals(), vec![1000]);
}

#[test]
fn deadlines_are_nearest_first() {
    let h = healthcheck(8000);
    assert_eq!(h.healthcheck_deadlines(100), vec![1100, 2100, 4100, 8100]);
}

#[test]
fn poll_success_is_healthy() {
    let deadlines = vec![1000, 2000];
    assert_eq!(poll_outcome(&deadlines, true, 0), HealthPoll::Healthy);
    // success decides even with every deadline gone
    assert_eq!(poll_outcome(&deadlines, true, 9999), HealthPoll::Healthy);
}

#[test]
fn poll_failure_retries_at_soonest_future_deadline() {
    let deadlines = vec![1000, 2000, 4000, 8000];
    assert_eq!(
        poll_outcome(&deadlines, false, 500),
        HealthPoll::Retry { deadline: 1000 }
    );
    // deadlines already past are dropped
    assert_eq!(
        poll_outcome(&deadlines, false, 2500),
        HealthPoll::Retry { deadline: 4000 }
    );
}

#[test]
fn poll_failure_after_all_deadlines_is_exhausted() {
    let deadlines = vec![1000, 2000];
    assert_eq!(poll_outcome(&deadlines, false, 2000), HealthPoll::Exhausted);
    assert_eq!(poll_outcome(&Vec::new(), false, 0), HealthPoll::Exhausted);
}

#[test]
fn healthcheck_probe_runs_from_scratch_directory() {
    let h = healthcheck(3000);
    assert_eq!(h.timeout_millis(), 3000);
    assert_eq!(h.command().command, "true");
    assert_eq!(h.command().workingdir, "/tmp");
}
