//! Idle-tracking state machine for one forwarding route: counts the live
//! connections and, while there are none, remembers since when the route has
//! been idle.

use vstd::prelude::*;

verus! {

enum CounterState {
    HasConnections { count: usize },
    NoConnections { since: u64 },
}

/// Counts the relay connections of one route. While the route is idle the
/// counter carries the timestamp (milliseconds) at which the last connection
/// ended (or the route started).
pub struct ConnectionCounter {
    state: CounterState,
}

impl ConnectionCounter {
    /// Number of live connections; zero exactly while the route is idle.
    pub closed spec fn connection_count(&self) -> nat {
        match self.state {
            CounterState::HasConnections { count } => count as nat,
            CounterState::NoConnections { .. } => 0,
        }
    }

    /// Timestamp since when the route has had no connections, `None` while
    /// connections are live.
    pub closed spec fn idle_since(&self) -> Option<u64> {
        match self.state {
            CounterState::HasConnections { .. } => None,
            CounterState::NoConnections { since } => Some(since),
        }
    }

    /// The two representations agree: the counter is in the idle state
    /// exactly when it counts no connections.
    pub closed spec fn wf(&self) -> bool {
        match self.state {
            CounterState::HasConnections { count } => count >= 1,
            CounterState::NoConnections { .. } => true,
        }
    }

    /// A fresh counter: idle since `now_millis`.
    pub fn new(now_millis: u64) -> (c: Self)
        ensures
            c.wf(),
            c.connection_count() == 0,
            c.idle_since() == Some(now_millis),
    {
        Self { state: CounterState::NoConnections { since: now_millis } }
    }

    /// One connection was accepted.
    pub fn add_connection(&mut self)
        requires
            old(self).wf(),
            old(self).connection_count() < usize::MAX,
        ensures
            final(self).wf(),
            final(self).connection_count() == old(self).connection_count() + 1,
            final(self).idle_since() is None,
    {
        self.state = match self.state {
            CounterState::HasConnections { count } => CounterState::HasConnections {
                count: count + 1,
            },
            CounterState::NoConnections { .. } => CounterState::HasConnections { count: 1 },
        }
    }

    /// One connection ended. Every call must be paired with an earlier
    /// `add_connection`: removing a connection from an idle counter is a
    /// caller bug, ruled out by the precondition.
    pub fn rem_connection(&mut self, now_millis: u64)
        requires
            old(self).wf(),
            old(self).connection_count() >= 1,
        ensures
            final(self).wf(),
            final(self).connection_count() == old(self).connection_count() - 1,
            old(self).connection_count() == 1 ==> final(self).idle_since() == Some(now_millis),
            old(self).connection_count() > 1 ==> final(self).idle_since() is None,
    {
        self.state = match self.state {
            CounterState::HasConnections { count } if count > 1 => {
                CounterState::HasConnections { count: count - 1 }
            },
            CounterState::HasConnections { .. } => CounterState::NoConnections {
                since: now_millis,
            },
            CounterState::NoConnections { since } => CounterState::NoConnections { since },
        }
    }

    /// The number of live connections.
    pub fn live_connections(&self) -> (n: usize)
        ensures
            n as nat == self.connection_count(),
    {
        match &self.state {
            CounterState::HasConnections { count } => *count,
            CounterState::NoConnections { .. } => 0,
        }
    }

    /// `None` while connections are live, else the timestamp since when the
    /// route has been idle.
    pub fn no_connections_since(&self) -> (r: Option<u64>)
        ensures
            r == self.idle_since(),
    {
        match &self.state {
            CounterState::HasConnections { .. } => None,
            CounterState::NoConnections { since } => Some(*since),
        }
    }
}

} // verus!
