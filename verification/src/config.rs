//! Configuration values as the core holds them: command templates, resource
//! descriptions and the per-suffix socket specifications the name resolver
//! works from. The file format these are read from is the caller's concern;
//! the core receives plain values.

use vstd::prelude::*;
use crate::template::template_render_outcome;

verus! {

/// A program invocation: command, arguments and working directory. Each part
/// may be a template to be rendered before use.
pub struct CommandConfig {
    pub command: String,
    pub args: Vec<String>,
    pub workingdir: String,
}

#[verifier::ext_equal]
pub ghost struct CommandConfigView {
    pub command: Seq<char>,
    pub args: Seq<Seq<char>>,
    pub workingdir: Seq<char>,
}

impl View for CommandConfig {
    type V = CommandConfigView;

    open spec fn view(&self) -> CommandConfigView {
        CommandConfigView {
            command: self.command@,
            args: self.args.deep_view(),
            workingdir: self.workingdir@,
        }
    }
}

impl Clone for CommandConfig {
    fn clone(&self) -> (r: Self)
        ensures
            r@ == self@,
    {
        let r = CommandConfig {
            command: self.command.clone(),
            args: clone_strings(&self.args),
            workingdir: self.workingdir.clone(),
        };
        proof {
            assert(r@ =~~= self@);
        }
        r
    }
}

/// Copies a vector of strings element by element.
fn clone_strings(v: &Vec<String>) -> (r: Vec<String>)
    ensures
        r@ == v@,
{
    let mut r: Vec<String> = Vec::new();
    let mut i: usize = 0;
    while i < v.len()
        invariant
            0 <= i <= v@.len(),
            r@ == v@.subrange(0, i as int),
        decreases v@.len() - i,
    {
        r.push(v[i].clone());
        proof {
            assert(r@ =~= v@.subrange(0, i + 1 as int));
        }
        i = i + 1;
    }
    proof {
        assert(v@.subrange(0, v@.len() as int) =~= v@);
    }
    r
}

/// A healthcheck: the probe command and the total deadline budget.
pub struct HealthcheckCmdConfig {
    pub command: String,
    pub args: Vec<String>,
    pub timeout_millis: u64,
}

#[verifier::ext_equal]
pub ghost struct HealthcheckCmdConfigView {
    pub command: Seq<char>,
    pub args: Seq<Seq<char>>,
    pub timeout_millis: u64,
}

impl View for HealthcheckCmdConfig {
    type V = HealthcheckCmdConfigView;

    open spec fn view(&self) -> HealthcheckCmdConfigView {
        HealthcheckCmdConfigView {
            command: self.command@,
            args: self.args.deep_view(),
            timeout_millis: self.timeout_millis,
        }
    }
}

impl Clone for HealthcheckCmdConfig {
    fn clone(&self) -> (r: Self)
        ensures
            r@ == self@,
    {
        let r = HealthcheckCmdConfig {
            command: self.command.clone(),
            args: clone_strings(&self.args),
            timeout_millis: self.timeout_millis,
        };
        proof {
            assert(r@ =~~= self@);
        }
        r
    }
}

/// The backing resource of a route: a setup command, a warmup pause and an
/// optional healthcheck.
pub struct ResourceConfig {
    pub setup: CommandConfig,
    pub warmup_millis: u64,
    pub healthcheck_cmd: Option<HealthcheckCmdConfig>,
}

#[verifier::ext_equal]
pub ghost struct ResourceConfigView {
    pub setup: CommandConfigView,
    pub warmup_millis: u64,
    pub healthcheck_cmd: Option<HealthcheckCmdConfigView>,
}

impl View for ResourceConfig {
    type V = ResourceConfigView;

    open spec fn view(&self) -> ResourceConfigView {
        ResourceConfigView {
            setup: self.setup@,
            warmup_millis: self.warmup_millis,
            healthcheck_cmd: match self.healthcheck_cmd {
                Some(h) => Some(h@),
                None => None,
            },
        }
    }
}

impl Clone for ResourceConfig {
    fn clone(&self) -> (r: Self)
        ensures
            r@ == self@,
    {
        let r = ResourceConfig {
            setup: self.setup.clone(),
            warmup_millis: self.warmup_millis,
            healthcheck_cmd: match &self.healthcheck_cmd {
                Some(h) => Some(h.clone()),
                None => None,
            },
        };
        proof {
            assert(r@ =~~= self@);
        }
        r
    }
}

/// One name-mode forwarding: source port, target port and the resource to
/// set up, its command parts still templates.
pub struct NamePlumbingConfig {
    pub source: u16,
    pub target: u16,
    pub resource: ResourceConfig,
}

#[verifier::ext_equal]
pub ghost struct NamePlumbingConfigView {
    pub source: u16,
    pub target: u16,
    pub resource: ResourceConfigView,
}

impl View for NamePlumbingConfig {
    type V = NamePlumbingConfigView;

    open spec fn view(&self) -> NamePlumbingConfigView {
        NamePlumbingConfigView { source: self.source, target: self.target, resource: self.resource@ }
    }
}

/// A named set of socket specifications, in configuration order.
pub struct SocketConf<T> {
    pub sockets: Vec<(String, T)>,
}

impl<T: View> View for SocketConf<T> {
    type V = Seq<(Seq<char>, T::V)>;

    open spec fn view(&self) -> Seq<(Seq<char>, T::V)> {
        Seq::new(self.sockets@.len(), |i: int| (self.sockets@[i].0@, self.sockets@[i].1@))
    }
}

/// What rendering every template of `c` against the parameter text `data`
/// yields: the rendered command when command, every argument and the working
/// directory all render, and nothing when any of them fails — a part that
/// opens a decorator counts as failed without consulting the engine
/// (`template_render_outcome`).
pub open spec fn rendered_command_config(c: CommandConfigView, data: Seq<char>) -> Option<
    CommandConfigView,
> {
    if template_render_outcome(c.command, data) is Some && template_render_outcome(
        c.workingdir,
        data,
    ) is Some && (forall|i: int|
        0 <= i < c.args.len() ==> template_render_outcome(#[trigger] c.args[i], data) is Some) {
        Some(
            CommandConfigView {
                command: template_render_outcome(c.command, data).unwrap(),
                args: Seq::new(
                    c.args.len(),
                    |i: int| template_render_outcome(c.args[i], data).unwrap(),
                ),
                workingdir: template_render_outcome(c.workingdir, data).unwrap(),
            },
        )
    } else {
        None
    }
}

impl CommandConfig {
    /// Renders the command, every argument and the working directory against
    /// the parameter text `data_json`; fails as a whole when any part fails.
    pub fn render_template(&self, data_json: &String) -> (r: Option<CommandConfig>)
        ensures
            match (r, rendered_command_config(self@, data_json@)) {
                (Some(c), Some(v)) => c@ == v,
                (None, None) => true,
                _ => false,
            },
    {
        let command = match crate::template::render_checked(self.command.as_str(), data_json) {
            Some(c) => c,
            None => {
                return None;
            },
        };
        let workingdir = match crate::template::render_checked(
            self.workingdir.as_str(),
            data_json,
        ) {
            Some(w) => w,
            None => {
                return None;
            },
        };
        let mut args: Vec<String> = Vec::new();
        let mut i: usize = 0;
        while i < self.args.len()
            invariant
                0 <= i <= self.args@.len(),
                args@.len() == i,
                template_render_outcome(self@.command, data_json@) is Some,
                template_render_outcome(self@.workingdir, data_json@) is Some,
                forall|k: int|
                    0 <= k < i ==> template_render_outcome(
                        #[trigger] self@.args[k],
                        data_json@,
                    ) is Some,
                forall|k: int|
                    0 <= k < i ==> #[trigger] args@[k]@ == template_render_outcome(
                        self@.args[k],
                        data_json@,
                    ).unwrap(),
            decreases self.args@.len() - i,
        {
            proof {
                assert(self@.args[i as int] == self.args@[i as int]@);
            }
            let ghost args0 = args@;
            let arg = match crate::template::render_checked(self.args[i].as_str(), data_json) {
                Some(a) => a,
                None => {
                    return None;
                },
            };
            args.push(arg);
            proof {
                assert(forall|k: int| 0 <= k < i ==> #[trigger] args@[k] == args0[k]);
            }
            i = i + 1;
        }
        let r = CommandConfig { command, args, workingdir };
        proof {
            let expected = rendered_command_config(self@, data_json@);
            assert(expected is Some);
            let want = expected.unwrap();
            assert(r@.args.len() == want.args.len());
            assert forall|k: int| 0 <= k < want.args.len() implies r@.args[k] == want.args[k] by {
                assert(r@.args[k] == args@[k]@);
            }
            assert(r@ =~~= want);
        }
        Some(r)
    }
}

} // verus!
