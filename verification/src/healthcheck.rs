//! Healthcheck scheduling: the halving interval ladder, the absolute
//! deadlines drawn from it, and the decision taken after each probe run. The
//! probe command itself is run by the caller, which feeds the outcome back
//! in.

use vstd::prelude::*;
use vstd::string::*;
use crate::config::{CommandConfig, CommandConfigView, HealthcheckCmdConfig};

verus! {

/// The interval ladder for a budget of `t` milliseconds: `t`, then half of
/// it, halving on down to the first value not above 1000 ms.
pub open spec fn interval_seq(t: u64) -> Seq<u64>
    decreases t,
{
    if t > 1000 {
        seq![t] + interval_seq((t / 2) as u64)
    } else {
        seq![t]
    }
}

/// Every interval of the ladder fits under the budget.
pub proof fn lemma_interval_seq_bounds(t: u64)
    ensures
        interval_seq(t).len() >= 1,
        forall|i: int| 0 <= i < interval_seq(t).len() ==> #[trigger] interval_seq(t)[i] <= t,
    decreases t,
{
    if t > 1000 {
        lemma_interval_seq_bounds((t / 2) as u64);
        assert forall|i: int| 0 <= i < interval_seq(t).len() implies #[trigger] interval_seq(
            t,
        )[i] <= t by {
            if i > 0 {
                assert(interval_seq(t)[i] == interval_seq((t / 2) as u64)[i - 1]);
            }
        }
    }
}

/// The deadlines drawn from the ladder at `now`: nearest first.
pub open spec fn deadline_seq(t: u64, now: u64) -> Seq<u64> {
    interval_seq(t).reverse().map_values(|v: u64| (now + v) as u64)
}

/// What one probe run decides.
#[derive(Clone, Copy, PartialEq, Eq, Structural, Debug)]
pub enum HealthPoll {
    /// The probe succeeded: the resource is healthy.
    Healthy,
    /// The probe failed; sleep until `deadline` and run it again.
    Retry { deadline: u64 },
    /// The probe failed and every deadline has passed: give the healthcheck
    /// up (the caller logs this; connections proceed regardless).
    Exhausted,
}

/// The soonest of `s` that still lies after `now`.
pub open spec fn soonest_after(s: Seq<u64>, now: u64) -> Option<u64>
    decreases s.len(),
{
    if s.len() == 0 {
        None
    } else {
        let rest = soonest_after(s.drop_first(), now);
        if s[0] > now {
            match rest {
                Some(r) => if s[0] <= r {
                    Some(s[0])
                } else {
                    Some(r)
                },
                None => Some(s[0]),
            }
        } else {
            rest
        }
    }
}

/// `soonest_after` answers with the minimal element still in the future,
/// and with nothing exactly when every element has passed.
pub proof fn lemma_soonest_after_characterize(s: Seq<u64>, now: u64)
    ensures
        match soonest_after(s, now) {
            None => forall|k: int| 0 <= k < s.len() ==> #[trigger] s[k] <= now,
            Some(d) => {
                &&& d > now
                &&& exists|k: int| 0 <= k < s.len() && #[trigger] s[k] == d
                &&& forall|k: int| 0 <= k < s.len() && #[trigger] s[k] > now ==> d <= s[k]
            },
        },
    decreases s.len(),
{
    if s.len() > 0 {
        lemma_soonest_after_characterize(s.drop_first(), now);
        assert forall|k: int| 1 <= k < s.len() implies s.drop_first()[k - 1] == #[trigger] s[k] by {}
        match soonest_after(s.drop_first(), now) {
            Some(r) => {
                let w = choose|k: int|
                    0 <= k < s.drop_first().len() && #[trigger] s.drop_first()[k] == r;
                assert(s[w + 1] == r);
            },
            None => {},
        }
    }
}

/// The decision after one probe run: success is health; failure retries at
/// the soonest deadline still ahead, or gives up when none is left.
pub open spec fn spec_poll(deadlines: Seq<u64>, success: bool, now: u64) -> HealthPoll {
    if success {
        HealthPoll::Healthy
    } else {
        match soonest_after(deadlines, now) {
            Some(d) => HealthPoll::Retry { deadline: d },
            None => HealthPoll::Exhausted,
        }
    }
}

/// Decides what to do after one probe run whose success the caller observed
/// at `now_millis`.
pub fn poll_outcome(deadlines: &Vec<u64>, success: bool, now_millis: u64) -> (r: HealthPoll)
    ensures
        r == spec_poll(deadlines@, success, now_millis),
{
    if success {
        return HealthPoll::Healthy;
    }
    let mut best: Option<u64> = None;
    let mut i: usize = 0;
    while i < deadlines.len()
        invariant
            0 <= i <= deadlines@.len(),
            match best {
                None => forall|k: int| 0 <= k < i ==> #[trigger] deadlines@[k] <= now_millis,
                Some(b) => {
                    &&& b > now_millis
                    &&& exists|k: int| 0 <= k < i && #[trigger] deadlines@[k] == b
                    &&& forall|k: int|
                        0 <= k < i && #[trigger] deadlines@[k] > now_millis ==> b <= deadlines@[k]
                },
            },
        decreases deadlines@.len() - i,
    {
        let d = deadlines[i];
        if d > now_millis {
            best = match best {
                Some(b) => if d < b {
                    Some(d)
                } else {
                    Some(b)
                },
                None => Some(d),
            };
        }
        i = i + 1;
    }
    proof {
        lemma_soonest_after_characterize(deadlines@, now_millis);
        match (best, soonest_after(deadlines@, now_millis)) {
            (Some(b), Some(d)) => {
                assert(b <= d);
                assert(d <= b);
            },
            (Some(b), None) => {
                let w = choose|k: int|
                    0 <= k < deadlines@.len() && #[trigger] deadlines@[k] == b;
                assert(deadlines@[w] <= now_millis);
            },
            (None, Some(d)) => {
                let w = choose|k: int|
                    0 <= k < deadlines@.len() && #[trigger] deadlines@[k] == d;
                assert(deadlines@[w] <= now_millis);
            },
            (None, None) => {},
        }
    }
    match best {
        Some(d) => HealthPoll::Retry { deadline: d },
        None => HealthPoll::Exhausted,
    }
}

/// A healthcheck: the probe command (run from a fixed scratch directory) and
/// the deadline budget.
#[derive(Clone)]
pub struct HealthcheckCommand {
    timeout_millis: u64,
    command: CommandConfig,
}

impl HealthcheckCommand {
    pub closed spec fn spec_timeout(&self) -> u64 {
        self.timeout_millis
    }

    pub closed spec fn spec_command(&self) -> CommandConfigView {
        self.command@
    }

    /// Builds the healthcheck from its configuration; the probe runs from
    /// the fixed scratch directory.
    pub fn new(conf: HealthcheckCmdConfig) -> (h: Self)
        ensures
            h.spec_timeout() == conf.timeout_millis,
            h.spec_command().command == conf.command@,
            h.spec_command().args == conf@.args,
            h.spec_command().workingdir == "/tmp"@,
    {
        HealthcheckCommand {
            timeout_millis: conf.timeout_millis,
            command: CommandConfig {
                command: conf.command,
                args: conf.args,
                workingdir: String::from_str("/tmp"),
            },
        }
    }

    /// The probe command for the caller to run.
    pub fn command(&self) -> (c: &CommandConfig)
        ensures
            c@ == self.spec_command(),
    {
        &self.command
    }

    pub fn timeout_millis(&self) -> (t: u64)
        ensures
            t == self.spec_timeout(),
    {
        self.timeout_millis
    }

    /// The interval ladder of this healthcheck's budget, largest first.
    pub fn healthcheck_intervals(&self) -> (r: Vec<u64>)
        ensures
            r@ == interval_seq(self.spec_timeout()),
    {
        let mut r: Vec<u64> = Vec::new();
        let mut cur = self.timeout_millis;
        r.push(cur);
        while cur > 1000
            invariant
                r@.len() >= 1,
                r@.last() == cur,
                interval_seq(self.spec_timeout()) =~= r@.drop_last() + interval_seq(cur),
            decreases cur,
        {
            proof {
                assert(interval_seq(cur) =~= seq![cur] + interval_seq((cur / 2) as u64));
            }
            let ghost r0 = r@;
            cur = cur / 2;
            r.push(cur);
            proof {
                assert(r@.drop_last() =~= r0);
                assert(r0.drop_last() + (seq![r0.last()] + interval_seq(cur)) =~= r@.drop_last()
                    + interval_seq(cur));
            }
        }
        proof {
            assert(r@.drop_last() + interval_seq(cur) =~= r@.drop_last().push(cur));
            assert(r@.drop_last().push(r@.last()) =~= r@);
        }
        r
    }

    /// The absolute deadlines of this healthcheck from `now_millis`, nearest
    /// first.
    pub fn healthcheck_deadlines(&self, now_millis: u64) -> (r: Vec<u64>)
        requires
            now_millis + self.spec_timeout() <= u64::MAX,
        ensures
            r@ == deadline_seq(self.spec_timeout(), now_millis),
    {
        proof {
            lemma_interval_seq_bounds(self.spec_timeout());
        }
        let intervals = self.healthcheck_intervals();
        let n = intervals.len();
        let mut r: Vec<u64> = Vec::new();
        let mut i: usize = 0;
        while i < n
            invariant
                n == intervals@.len(),
                intervals@ == interval_seq(self.spec_timeout()),
                now_millis + self.spec_timeout() <= u64::MAX,
                forall|k: int|
                    0 <= k < intervals@.len() ==> #[trigger] intervals@[k] <= self.spec_timeout(),
                0 <= i <= n,
                r@.len() == i,
                forall|k: int|
                    0 <= k < i ==> #[trigger] r@[k] == (now_millis + intervals@[n - 1 - k]) as u64,
            decreases n - i,
        {
            r.push(now_millis + intervals[n - 1 - i]);
            i = i + 1;
        }
        proof {
            let expected = deadline_seq(self.spec_timeout(), now_millis);
            assert(expected.len() == n);
            assert forall|k: int| 0 <= k < n implies r@[k] == expected[k] by {
                assert(interval_seq(self.spec_timeout()).reverse()[k] == intervals@[n - 1 - k]);
            }
            assert(r@ =~= expected);
        }
        r
    }
}

} // verus!
