//! The decision core of one route's accept loop. The caller owns the
//! sockets: it waits for connections with a bounded timeout, relays bytes,
//! and observes the backing process; this state machine is consulted at each
//! step and decides what the loop must do to the counter and the resource.

use vstd::prelude::*;
use crate::cmd_resource::CmdResource;
use crate::connections_counter::ConnectionCounter;

verus! {

/// Continuous idle time, in milliseconds, after which a route's backing
/// resource is stopped.
pub const IDLE_SHUTDOWN_MILLIS: u64 = 600_000;

/// Whether the idle-shutdown trigger has fired: the route has been idle
/// since some instant that lies more than the idle budget before `now`.
pub open spec fn spec_idle_beyond_limit(c: &ConnectionCounter, now: u64) -> bool {
    match c.idle_since() {
        Some(ts) => ts + IDLE_SHUTDOWN_MILLIS < now,
        None => false,
    }
}

/// What the accept loop must do after a bounded wait ran out.
#[derive(Clone, Copy, PartialEq, Eq, Structural, Debug)]
pub enum IdleAction {
    /// Keep waiting for connections.
    Wait,
    /// Stop the backing process: the route has been idle beyond the budget
    /// and the process is alive.
    StopResource,
}

/// The per-route loop state: the connection counter and the backing
/// resource.
pub struct ForwardingLoop {
    pub counter: ConnectionCounter,
    pub resource: CmdResource,
}

impl ForwardingLoop {
    pub open spec fn wf(&self) -> bool {
        self.counter.wf()
    }

    /// A route's loop starts idle, from `now_millis`, with its configured
    /// resource.
    pub fn new(resource: CmdResource, now_millis: u64) -> (f: Self)
        ensures
            f.wf(),
            f.counter.connection_count() == 0,
            f.counter.idle_since() == Some(now_millis),
            f.resource == resource,
    {
        ForwardingLoop { counter: ConnectionCounter::new(now_millis), resource }
    }

    /// The accept wait ran out with no connection: stop the backing process
    /// exactly when the route has been idle beyond the budget and the
    /// process is observed alive. Once stopped (and while the route stays
    /// idle) the next timeout observes a dead process and waits on — the
    /// stop is taken once.
    pub fn on_accept_timeout(&self, now_millis: u64, alive: bool) -> (r: IdleAction)
        ensures
            r == (if spec_idle_beyond_limit(&self.counter, now_millis)
                && self.resource.is_command() && alive {
                IdleAction::StopResource
            } else {
                IdleAction::Wait
            }),
    {
        match self.counter.no_connections_since() {
            Some(ts) => {
                if ts < now_millis && now_millis - ts > IDLE_SHUTDOWN_MILLIS
                    && self.resource.ensure_stopped(alive) {
                    IdleAction::StopResource
                } else {
                    IdleAction::Wait
                }
            },
            None => IdleAction::Wait,
        }
    }

    /// A connection was accepted at `now_millis`: the counter steps up, and
    /// the caller must start the backing process first (spawn, warmup,
    /// healthcheck) exactly when one is configured and not alive.
    pub fn on_connection(&mut self, alive: bool) -> (start: bool)
        requires
            old(self).wf(),
            old(self).counter.connection_count() < usize::MAX,
        ensures
            final(self).wf(),
            final(self).resource == old(self).resource,
            final(self).counter.connection_count() == old(self).counter.connection_count() + 1,
            final(self).counter.idle_since() is None,
            start == (old(self).resource.is_command() && !alive),
    {
        self.counter.add_connection();
        self.resource.ensure_running(alive)
    }

    /// A relay finished at `now_millis`, well or badly: the counter steps
    /// down, and a route left without connections is idle from this instant.
    /// Every call must be paired with an earlier `on_connection`.
    pub fn on_relay_done(&mut self, now_millis: u64)
        requires
            old(self).wf(),
            old(self).counter.connection_count() >= 1,
        ensures
            final(self).wf(),
            final(self).resource == old(self).resource,
            final(self).counter.connection_count() == old(self).counter.connection_count() - 1,
            old(self).counter.connection_count() == 1 ==> final(self).counter.idle_since()
                == Some(now_millis),
            old(self).counter.connection_count() > 1 ==> final(self).counter.idle_since() is None,
    {
        self.counter.rem_connection(now_millis);
    }
}

} // verus!
