//! The backing resource of a route: either nothing, or a configured command
//! with a warmup pause and an optional healthcheck. The decisions —
//! whether to start or stop the process given its observed liveness — are
//! taken here; spawning, killing and sleeping are the caller's work.

use vstd::prelude::*;
use crate::config::{CommandConfig, CommandConfigView, ResourceConfig};
use crate::healthcheck::HealthcheckCommand;

verus! {

/// A route's backing resource.
pub enum CmdResource {
    /// No backing process is configured; connections pass through freely.
    Empty,
    /// A configured backing command.
    Command {
        setup: CommandConfig,
        warmup_millis: u64,
        healthcheck: Option<HealthcheckCommand>,
    },
}

impl CmdResource {
    pub open spec fn is_command(&self) -> bool {
        self matches CmdResource::Command { .. }
    }

    pub open spec fn spec_setup(&self) -> Option<CommandConfigView> {
        match self {
            CmdResource::Command { setup, .. } => Some(setup@),
            CmdResource::Empty => None,
        }
    }

    pub open spec fn spec_warmup_millis(&self) -> u64 {
        match self {
            CmdResource::Command { warmup_millis, .. } => *warmup_millis,
            CmdResource::Empty => 0,
        }
    }

    /// The stored healthcheck, if one is configured.
    pub closed spec fn spec_healthcheck(&self) -> Option<HealthcheckCommand> {
        match self {
            CmdResource::Command { healthcheck, .. } => *healthcheck,
            CmdResource::Empty => None,
        }
    }

    pub open spec fn spec_has_healthcheck(&self) -> bool {
        self.spec_healthcheck() is Some
    }

    /// Builds the resource from its configuration: nothing configured means
    /// an empty resource; else the setup command stands with its warmup and
    /// its healthcheck, if one is configured.
    pub fn from_config(config: Option<&ResourceConfig>) -> (r: Self)
        ensures
            match config {
                None => r matches CmdResource::Empty,
                Some(c) => {
                    &&& r.is_command()
                    &&& r.spec_setup() == Some(c.setup@)
                    &&& r.spec_warmup_millis() == c.warmup_millis
                    &&& match c.healthcheck_cmd {
                        Some(h) => r.spec_healthcheck() matches Some(hc) && hc.spec_timeout()
                            == h.timeout_millis && hc.spec_command().command == h.command@
                            && hc.spec_command().args == h@.args && hc.spec_command().workingdir
                            == "/tmp"@,
                        None => r.spec_healthcheck() is None,
                    }
                },
            },
    {
        match config {
            None => CmdResource::Empty,
            Some(c) => CmdResource::Command {
                setup: c.setup.clone(),
                warmup_millis: c.warmup_millis,
                healthcheck: match &c.healthcheck_cmd {
                    Some(h) => Some(HealthcheckCommand::new(h.clone())),
                    None => None,
                },
            },
        }
    }

    /// Whether serving a connection must start the process now: yes exactly
    /// when a command is configured and the process is not alive. The caller
    /// then spawns the setup command, waits out the warmup, and drives the
    /// healthcheck, if any; an empty resource and a live process alike need
    /// nothing.
    pub fn ensure_running(&self, alive: bool) -> (start: bool)
        ensures
            start == (self.is_command() && !alive),
    {
        match self {
            CmdResource::Command { .. } => !alive,
            CmdResource::Empty => false,
        }
    }

    /// Whether idle shutdown must stop the process now: yes exactly when a
    /// command is configured and the process is alive. Calling this again
    /// once the process is down decides nothing — the stop is taken once.
    pub fn ensure_stopped(&self, alive: bool) -> (stop: bool)
        ensures
            stop == (self.is_command() && alive),
    {
        match self {
            CmdResource::Command { .. } => alive,
            CmdResource::Empty => false,
        }
    }

    /// The setup command for the caller to spawn, where one is configured.
    pub fn setup(&self) -> (c: Option<&CommandConfig>)
        ensures
            match c {
                Some(cc) => self.spec_setup() == Some(cc@),
                None => self.spec_setup() is None,
            },
    {
        match self {
            CmdResource::Command { setup, .. } => Some(setup),
            CmdResource::Empty => None,
        }
    }

    pub fn warmup_millis(&self) -> (w: u64)
        ensures
            w == self.spec_warmup_millis(),
    {
        match self {
            CmdResource::Command { warmup_millis, .. } => *warmup_millis,
            CmdResource::Empty => 0,
        }
    }

    /// The healthcheck to drive after a start, where one is configured.
    pub fn healthcheck(&self) -> (h: Option<&HealthcheckCommand>)
        ensures
            match h {
                Some(hc) => self.spec_healthcheck() == Some(*hc),
                None => self.spec_healthcheck() is None,
            },
    {
        match self {
            CmdResource::Command { healthcheck: Some(h), .. } => Some(h),
            _ => None,
        }
    }
}

} // verus!
