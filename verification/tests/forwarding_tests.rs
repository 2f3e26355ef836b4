use port_plumber::cmd_resource::CmdResource;
use port_plumber::config::{CommandConfig, HealthcheckCmdConfig, ResourceConfig};
use port_plumber::forwarding::{ForwardingLoop, IdleAction, IDLE_SHUTDOWN_MILLIS};

fn command_resource() -> CmdResource {
    CmdResource::from_config(Some(&ResourceConfig {
        setup: CommandConfig {
            command: String::from("serve"),
            args: Vec::new(),
            workingdir: String::from("/tmp"),
        },
        warmup_millis: 100,
        healthcheck_cmd: None,
    }))
}

#[test]
fn idle_shutdown_stops_the_resource_exactly_once() {
    let f = ForwardingLoop::new(command_resource(), 0);
    // idle for exactly the budget: not yet beyond it
    assert_eq!(f.on_accept_timeout(IDLE_SHUTDOWN_MILLIS, true), IdleAction::Wait);
    // beyond the budget with the process alive: stop it
    assert_eq!(
        f.on_accept_timeout(IDLE_SHUTDOWN_MILLIS + 1, true),
        IdleAction::StopResource
    );
    // still idle, but the process is down now: the stop is not taken again
    assert_eq!(f.on_accept_timeout(IDLE_SHUTDOWN_MILLIS + 2, false), IdleAction::Wait);
}

#[test]
fn idle_clock_restarts_when_the_last_relay_ends() {
    let mut f = ForwardingLoop::new(command_resource(), 0);
    let start = f.on_connection(false);
    assert!(start);
    // busy routes are never idle-stopped
    assert_eq!(
        f.on_accept_timeout(2 * IDLE_SHUTDOWN_MILLIS, true),
        IdleAction::Wait
    );
    f.on_relay_done(1000);
    assert_eq!(f.counter.no_connections_since(), Some(1000));
    assert_eq!(
        f.on_accept_timeout(1000 + IDLE_SHUTDOWN_MILLIS + 1, true),
        IdleAction::StopResource
    );
}

#[test]
fn connection_starts_the_resource_only_when_dead() {
    let mut f = ForwardingLoop::new(command_resource(), 0);
    assert!(f.on_connection(false));
    assert!(!f.on_connection(true));
}

#[test]
fn empty_resource_is_never_started_or_stopped() {
    let mut f = ForwardingLoop::new(CmdResource::from_config(None), 0);
    assert!(!f.on_connection(false));
    f.on_relay_done(1);
    assert_eq!(
        f.on_accept_timeout(IDLE_SHUTDOWN_MILLIS + 10, true),
        IdleAction::Wait
    );
}

#[test]
fn ensure_running_and_stopped_decisions_are_exact() {
    let r = command_resource();
    assert!(r.ensure_running(false));
    assert!(!r.ensure_running(true));
    assert!(r.ensure_stopped(true));
    assert!(!r.ensure_stopped(false));
    let empty = CmdResource::from_config(None);
    assert!(!empty.ensure_running(false));
    assert!(!empty.ensure_stopped(true));
}

#[test]
fn resource_exposes_its_configuration() {
    let r = command_resource();
    assert_eq!(r.warmup_millis(), 100);
    assert_eq!(r.setup().unwrap().command, "serve");
    assert!(r.healthcheck().is_none());
}

#[test]
fn resource_stores_its_healthcheck_whole() {
    let r = CmdResource::from_config(Some(&ResourceConfig {
        setup: CommandConfig {
            command: String::from("serve"),
            args: Vec::new(),
            workingdir: String::from("/tmp"),
        },
        warmup_millis: 100,
        healthcheck_cmd: Some(HealthcheckCmdConfig {
            command: String::from("probe"),
            args: vec![String::from("--ping")],
            timeout_millis: 4000,
        }),
    }));
    let hc = r.healthcheck().expect("healthcheck is configured");
    assert_eq!(hc.timeout_millis(), 4000);
    assert_eq!(hc.command().command, "probe");
    assert_eq!(hc.command().args, vec!["--ping"]);
    assert_eq!(hc.command().workingdir, "/tmp");
    assert_eq!(hc.healthcheck_intervals(), vec![4000, 2000, 1000]);
}
