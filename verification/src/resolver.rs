//! The name resolver: finds the configured suffix a name falls under,
//! obtains the name's address binding from the routing table, renders each
//! configured mapping's command templates against the binding, and attaches
//! the rendered mappings as the name's port forwardings. Among several
//! matching suffixes the longest wins, the earliest of equals.

use vstd::prelude::*;
use vstd::string::*;
use crate::addr::IpAddress;
use crate::config::{
    rendered_command_config, NamePlumbingConfig, NamePlumbingConfigView, ResourceConfig,
    SocketConf,
};
use crate::plumber::{
    spec_attach, spec_resolve, ListenerSpec, ListenerSpecView, Plumber, PlumberView, Plumbing,
    PlumbingDescriptor, PlumbingDescriptorView,
};
use crate::config::ResourceConfigView;
use crate::template::{build_params_json, params_json_seq};
use crate::text::{split_dots, split_labels, str_ends_with, suffix_matches};

verus! {

/// The parameters a route's command templates are rendered with.
pub struct TemplateParams {
    pub source: EndpointParam,
    pub target: EndpointParam,
    pub url: UrlParam,
}

/// One endpoint of the binding, as template data.
pub struct EndpointParam {
    pub ip: IpAddress,
}

/// The resolved name, whole and as labels keyed by their position from the
/// right (`0` the rightmost label).
pub struct UrlParam {
    pub full: String,
    pub parts: Vec<String>,
}

/// The parameter document for a binding and a name.
pub open spec fn params_for(source: IpAddress, target: IpAddress, name: Seq<char>) -> Seq<char> {
    params_json_seq(
        source.display_seq(),
        target.display_seq(),
        name,
        split_dots(name).reverse(),
    )
}

impl TemplateParams {
    /// Writes the parameters as the JSON document rendering works from.
    pub fn to_json(&self) -> (r: String)
        ensures
            r@ == params_json_seq(
                self.source.ip.display_seq(),
                self.target.ip.display_seq(),
                self.url.full@,
                self.url.parts.deep_view(),
            ),
    {
        let source_ip = self.source.ip.to_display_string();
        let target_ip = self.target.ip.to_display_string();
        build_params_json(&source_ip, &target_ip, self.url.full.as_str(), &self.url.parts)
    }
}

/// The labels of `name`, rightmost first.
pub fn reversed_labels(name: &str) -> (parts: Vec<String>)
    ensures
        parts.deep_view() == split_dots(name@).reverse(),
{
    let mut labels = split_labels(name);
    let ghost all = labels.deep_view();
    let mut parts: Vec<String> = Vec::new();
    while labels.len() > 0
        invariant
            labels@.len() + parts@.len() == all.len(),
            forall|k: int| 0 <= k < labels@.len() ==> (#[trigger] labels@[k])@ == all[k],
            forall|k: int|
                0 <= k < parts@.len() ==> (#[trigger] parts@[k])@ == all[all.len() - 1 - k],
        decreases labels@.len(),
    {
        let l = labels.pop();
        match l {
            Some(s) => parts.push(s),
            None => {},
        }
    }
    proof {
        assert(parts.deep_view() =~~= split_dots(name@).reverse());
    }
    parts
}

/// The best match among the first `n` configured suffixes: the longest
/// suffix of `name` among them, the earliest of equals; `-1` when none
/// matches.
pub open spec fn best_match_upto(
    config: Seq<(Seq<char>, Seq<(Seq<char>, NamePlumbingConfigView)>)>,
    name: Seq<char>,
    n: int,
) -> int
    decreases n,
{
    if n <= 0 {
        -1
    } else {
        let prev = best_match_upto(config, name, n - 1);
        if suffix_matches(config[n - 1].0, name) && (prev == -1 || config[n - 1].0.len()
            > config[prev].0.len()) {
            n - 1
        } else {
            prev
        }
    }
}

/// The configured suffix `name` resolves under, or `-1`.
pub open spec fn match_index(
    config: Seq<(Seq<char>, Seq<(Seq<char>, NamePlumbingConfigView)>)>,
    name: Seq<char>,
) -> int {
    best_match_upto(config, name, config.len() as int)
}

/// What `match_index` answers: no index only when no suffix matches, and
/// otherwise a matching suffix no other match exceeds in length, with every
/// earlier match strictly shorter.
pub proof fn lemma_match_index_characterize(
    config: Seq<(Seq<char>, Seq<(Seq<char>, NamePlumbingConfigView)>)>,
    name: Seq<char>,
    n: int,
)
    requires
        0 <= n <= config.len(),
    ensures
        ({
            let m = best_match_upto(config, name, n);
            &&& -1 <= m < n || (n == 0 && m == -1)
            &&& (m == -1 ==> forall|i: int|
                0 <= i < n ==> !suffix_matches((#[trigger] config[i]).0, name))
            &&& (m >= 0 ==> {
                &&& m < n
                &&& suffix_matches(config[m].0, name)
                &&& forall|i: int|
                    0 <= i < n && suffix_matches((#[trigger] config[i]).0, name) ==> config[i].0.len()
                        <= config[m].0.len()
                &&& forall|i: int|
                    0 <= i < m && suffix_matches((#[trigger] config[i]).0, name) ==> config[i].0.len()
                        < config[m].0.len()
            })
        }),
    decreases n,
{
    if n > 0 {
        lemma_match_index_characterize(config, name, n - 1);
        let prev = best_match_upto(config, name, n - 1);
        let m = best_match_upto(config, name, n);
        if suffix_matches(config[n - 1].0, name) && (prev == -1 || config[n - 1].0.len()
            > config[prev].0.len()) {
            assert(m == n - 1);
            assert forall|i: int|
                0 <= i < n && suffix_matches((#[trigger] config[i]).0, name) implies config[i].0.len() <= config[m].0.len() by {
                if i < n - 1 {
                    if prev >= 0 {
                        assert(config[i].0.len() <= config[prev].0.len());
                    } else {
                        assert(!suffix_matches(config[i].0, name));
                    }
                }
            }
            assert forall|i: int|
                0 <= i < m && suffix_matches((#[trigger] config[i]).0, name) implies config[i].0.len() < config[m].0.len() by {
                if prev >= 0 {
                    assert(config[i].0.len() <= config[prev].0.len());
                } else {
                    assert(!suffix_matches(config[i].0, name));
                }
            }
        } else {
            assert(m == prev);
            if m >= 0 {
                assert forall|i: int|
                    0 <= i < n && suffix_matches((#[trigger] config[i]).0, name) implies config[i].0.len() <= config[m].0.len() by {
                    if i == n - 1 {
                        assert(config[n - 1].0.len() <= config[prev].0.len());
                    }
                }
            }
        }
    }
}

/// Attaching the rendered mappings of one suffix entry, from index `k` on:
/// a mapping whose templates do not render is skipped; each other is
/// attached under `name`, and the listeners of the newly recorded ones are
/// collected in order.
pub open spec fn spec_apply_mappings(
    p: PlumberView,
    name: Seq<char>,
    sockets: Seq<(Seq<char>, NamePlumbingConfigView)>,
    data: Seq<char>,
    k: int,
) -> (PlumberView, Seq<ListenerSpecView>)
    decreases sockets.len() - k,
{
    if k < 0 || k >= sockets.len() {
        (p, Seq::empty())
    } else {
        let conf = sockets[k].1;
        match rendered_command_config(conf.resource.setup, data) {
            None => spec_apply_mappings(p, name, sockets, data, k + 1),
            Some(setup2) => {
                let d = PlumbingDescriptorView {
                    in_addr: None,
                    in_port: conf.source,
                    out_addr: None,
                    out_port: conf.target,
                    resource: Some(
                        ResourceConfigView {
                            setup: setup2,
                            warmup_millis: conf.resource.warmup_millis,
                            healthcheck_cmd: conf.resource.healthcheck_cmd,
                        },
                    ),
                };
                let (p2, res) = spec_attach(p, name, d);
                match res {
                    Ok(Some(ls)) => {
                        let (p3, rest) = spec_apply_mappings(p2, name, sockets, data, k + 1);
                        (p3, seq![ls] + rest)
                    },
                    Ok(None) => spec_apply_mappings(p2, name, sockets, data, k + 1),
                    Err(_) => spec_apply_mappings(p2, name, sockets, data, k + 1),
                }
            },
        }
    }
}

/// Applying an entry's mappings keeps the table well-formed, keeps the
/// route and its addresses, only accumulates mapped ports, and maps the
/// source port of every mapping whose templates render.
proof fn lemma_apply_mappings_properties(
    p: PlumberView,
    name: Seq<char>,
    sockets: Seq<(Seq<char>, NamePlumbingConfigView)>,
    data: Seq<char>,
    k: int,
)
    requires
        p.wf(),
        p.has_route(name),
        0 <= k,
    ensures
        ({
            let (pf, ls) = spec_apply_mappings(p, name, sockets, data, k);
            &&& pf.wf()
            &&& pf.has_route(name)
            &&& pf.route(name).in_addr == p.route(name).in_addr
            &&& pf.route(name).out_addr == p.route(name).out_addr
            &&& forall|q: u16|
                crate::plumber::maps_port(p.route(name), q) ==> crate::plumber::maps_port(
                    pf.route(name),
                    q,
                )
            &&& forall|j: int|
                k <= j < sockets.len() && rendered_command_config(
                    (#[trigger] sockets[j]).1.resource.setup,
                    data,
                ) is Some ==> crate::plumber::maps_port(pf.route(name), sockets[j].1.source)
        }),
    decreases sockets.len() - k,
{
    if k >= sockets.len() {
    } else {
        let conf = sockets[k].1;
        match rendered_command_config(conf.resource.setup, data) {
            None => {
                lemma_apply_mappings_properties(p, name, sockets, data, k + 1);
            },
            Some(setup2) => {
                let d = PlumbingDescriptorView {
                    in_addr: None,
                    in_port: conf.source,
                    out_addr: None,
                    out_port: conf.target,
                    resource: Some(
                        ResourceConfigView {
                            setup: setup2,
                            warmup_millis: conf.resource.warmup_millis,
                            healthcheck_cmd: conf.resource.healthcheck_cmd,
                        },
                    ),
                };
                crate::plumber::lemma_attach_properties(p, name, d);
                let p2 = spec_attach(p, name, d).0;
                lemma_apply_mappings_properties(p2, name, sockets, data, k + 1);
            },
        }
    }
}

/// Under the conditions the first application leaves behind — every
/// mapping that renders has its source port mapped already — applying the
/// entry again changes nothing and records nothing.
proof fn lemma_apply_mappings_noop(
    p: PlumberView,
    name: Seq<char>,
    sockets: Seq<(Seq<char>, NamePlumbingConfigView)>,
    data: Seq<char>,
    k: int,
)
    requires
        p.wf(),
        p.has_route(name),
        0 <= k,
        forall|j: int|
            k <= j < sockets.len() && rendered_command_config(
                (#[trigger] sockets[j]).1.resource.setup,
                data,
            ) is Some ==> crate::plumber::maps_port(p.route(name), sockets[j].1.source),
    ensures
        spec_apply_mappings(p, name, sockets, data, k) == (p, Seq::<ListenerSpecView>::empty()),
    decreases sockets.len() - k,
{
    if k >= sockets.len() {
    } else {
        let conf = sockets[k].1;
        match rendered_command_config(conf.resource.setup, data) {
            None => {
                lemma_apply_mappings_noop(p, name, sockets, data, k + 1);
            },
            Some(setup2) => {
                let d = PlumbingDescriptorView {
                    in_addr: None,
                    in_port: conf.source,
                    out_addr: None,
                    out_port: conf.target,
                    resource: Some(
                        ResourceConfigView {
                            setup: setup2,
                            warmup_millis: conf.resource.warmup_millis,
                            healthcheck_cmd: conf.resource.healthcheck_cmd,
                        },
                    ),
                };
                crate::plumber::lemma_attach_properties(p, name, d);
                assert(spec_attach(p, name, d).0 == p);
                lemma_apply_mappings_noop(p, name, sockets, data, k + 1);
            },
        }
    }
}

/// The whole resolution of `name` against a configuration and a table: no
/// matching suffix resolves to nothing; a matching suffix draws the binding
/// (allocating the route on first sight), renders every mapping of the
/// entry against it and attaches the rendered ones. Address-space
/// exhaustion on a fresh name also resolves to nothing, with the table
/// unchanged.
pub open spec fn spec_resolver_resolve(
    config: Seq<(Seq<char>, Seq<(Seq<char>, NamePlumbingConfigView)>)>,
    p: PlumberView,
    name: Seq<char>,
) -> (PlumberView, Option<IpAddress>, Seq<ListenerSpecView>) {
    let m = match_index(config, name);
    if m < 0 {
        (p, None, Seq::empty())
    } else {
        let (p1, rb) = spec_resolve(p, name);
        match rb {
            Err(_) => (p, None, Seq::empty()),
            Ok(binding) => {
                let data = params_for(binding.source, binding.target, name);
                let (p2, listeners) = spec_apply_mappings(p1, name, config[m].1, data, 0);
                (p2, Some(binding.source), listeners)
            },
        }
    }
}

/// Resolution is idempotent in effect: resolving the same name again
/// answers with the same source address, changes nothing in the routing
/// table, and records no new mapping — the repeated attaches are no-ops.
pub proof fn lemma_resolver_resolve_idempotent(
    config: Seq<(Seq<char>, Seq<(Seq<char>, NamePlumbingConfigView)>)>,
    p: PlumberView,
    name: Seq<char>,
)
    requires
        p.wf(),
    ensures
        ({
            let (p1, src1, ls1) = spec_resolver_resolve(config, p, name);
            let (p2, src2, ls2) = spec_resolver_resolve(config, p1, name);
            &&& p2 == p1
            &&& src2 == src1
            &&& ls2 == Seq::<ListenerSpecView>::empty()
        }),
{
    let m = match_index(config, name);
    if m >= 0 {
        lemma_match_index_characterize(config, name, config.len() as int);
        let (pa, rb) = spec_resolve(p, name);
        match rb {
            Err(_) => {},
            Ok(binding) => {
                crate::plumber::lemma_route_created_by_resolve(p, name);
                if !p.has_route(name) {
                    crate::plumber::lemma_create_route_wf(p, name, None, None);
                    crate::plumber::lemma_route_index_unique(pa, name, pa.routes.len() - 1);
                }
                assert(pa.wf());
                assert(pa.route(name).in_addr == binding.source);
                assert(pa.route(name).out_addr == binding.target);
                let data = params_for(binding.source, binding.target, name);
                lemma_apply_mappings_properties(pa, name, config[m].1, data, 0);
                let (p1, ls1) = spec_apply_mappings(pa, name, config[m].1, data, 0);
                assert(p1.wf());
                assert(p1.has_route(name));
                assert(spec_resolve(p1, name) == (
                    p1,
                    Ok::<crate::plumber::AddressBinding, crate::plumber::PlumberError>(binding),
                ));
                lemma_apply_mappings_noop(p1, name, config[m].1, data, 0);
            },
        }
    }
}

/// What a successful resolution hands back: the name's source address, and
/// the listeners to run for the mappings recorded by this very call.
pub struct ResolveOutcome {
    pub source: IpAddress,
    pub listeners: Vec<ListenerSpec>,
}

/// The resolver: the suffix configuration, in order, and the routing table
/// it attaches into.
pub struct NameResolver {
    config: Vec<(String, SocketConf<NamePlumbingConfig>)>,
    plumber: Plumber,
}

/// The view of a suffix configuration.
pub open spec fn spec_config_view(
    c: Seq<(String, SocketConf<NamePlumbingConfig>)>,
) -> Seq<(Seq<char>, Seq<(Seq<char>, NamePlumbingConfigView)>)> {
    Seq::new(c.len(), |i: int| (c[i].0@, c[i].1@))
}

impl NameResolver {
    pub closed spec fn config_view(&self) -> Seq<
        (Seq<char>, Seq<(Seq<char>, NamePlumbingConfigView)>),
    > {
        spec_config_view(self.config@)
    }

    pub closed spec fn plumber_view(&self) -> PlumberView {
        self.plumber@
    }

    pub open spec fn wf(&self) -> bool {
        self.plumber_view().wf()
    }

    /// Builds the resolver over a configuration and the table it will
    /// attach into.
    pub fn new(config: Vec<(String, SocketConf<NamePlumbingConfig>)>, plumber: Plumber) -> (r:
        Self)
        requires
            plumber@.wf(),
        ensures
            r.wf(),
            r.config_view() == spec_config_view(config@),
            r.plumber_view() == plumber@,
    {
        NameResolver { config, plumber }
    }

    /// Read access to the routing table.
    pub fn plumber(&self) -> (p: &Plumber)
        ensures
            p@ == self.plumber_view(),
    {
        &self.plumber
    }

    /// Gives the routes up for shutdown; the caller joins their listener
    /// tasks.
    pub fn join(self) -> (routes: Vec<Plumbing>)
        ensures
            routes@.len() == self.plumber_view().routes.len(),
            forall|i: int|
                0 <= i < routes@.len() ==> (#[trigger] routes@[i])@ == self.plumber_view().routes[i],
    {
        self.plumber.join()
    }

    /// Index of the configured suffix `name` falls under (longest match,
    /// earliest of equals).
    fn find_match(&self, name: &str) -> (r: Option<usize>)
        ensures
            match r {
                Some(m) => m as int == match_index(self.config_view(), name@),
                None => match_index(self.config_view(), name@) == -1,
            },
    {
        let mut best: Option<usize> = None;
        let mut best_len: usize = 0;
        let mut i: usize = 0;
        while i < self.config.len()
            invariant
                0 <= i <= self.config@.len(),
                match best {
                    None => best_match_upto(self.config_view(), name@, i as int) == -1,
                    Some(b) => {
                        &&& best_match_upto(self.config_view(), name@, i as int) == b as int
                        &&& 0 <= b < i
                        &&& best_len == self.config_view()[b as int].0.len()
                    },
                },
            decreases self.config@.len() - i,
        {
            let entry = &self.config[i].0;
            if str_ends_with(name, entry.as_str()) {
                let l = entry.as_str().unicode_len();
                match best {
                    None => {
                        best = Some(i);
                        best_len = l;
                    },
                    Some(_) => {
                        if l > best_len {
                            best = Some(i);
                            best_len = l;
                        }
                    },
                }
            }
            i = i + 1;
        }
        best
    }

    /// Resolves `name`: nothing when no configured suffix matches it (the
    /// table untouched), and nothing on address-space exhaustion of a fresh
    /// name; else the name's source address, after rendering and attaching
    /// every mapping of the matched entry — the listeners of the mappings
    /// this call recorded come back for the caller to run.
    pub fn resolve(&mut self, name: &str) -> (r: Option<ResolveOutcome>)
        requires
            old(self).wf(),
        ensures
            final(self).wf(),
            final(self).config_view() == old(self).config_view(),
            ({
                let (p2, src, listeners) = spec_resolver_resolve(
                    old(self).config_view(),
                    old(self).plumber_view(),
                    name@,
                );
                &&& final(self).plumber_view() == p2
                &&& match (r, src) {
                    (Some(o), Some(s)) => {
                        &&& o.source == s
                        &&& o.listeners@.len() == listeners.len()
                        &&& forall|i: int|
                            0 <= i < listeners.len() ==> (#[trigger] o.listeners@[i])@
                                == listeners[i]
                    },
                    (None, None) => true,
                    _ => false,
                }
            }),
    {
        let m = match self.find_match(name) {
            Some(m) => m,
            None => {
                return None;
            },
        };
        proof {
            lemma_match_index_characterize(
                self.config_view(),
                name@,
                self.config_view().len() as int,
            );
        }
        let binding = match self.plumber.resolve(name) {
            Ok(b) => b,
            Err(_) => {
                return None;
            },
        };
        let ghost p1 = self.plumber@;
        proof {
            crate::plumber::lemma_route_created_by_resolve(old(self).plumber_view(), name@);
        }
        let parts = reversed_labels(name);
        let params = TemplateParams {
            source: EndpointParam { ip: binding.source },
            target: EndpointParam { ip: binding.target },
            url: UrlParam { full: String::from_str(name), parts },
        };
        let data = params.to_json();
        proof {
            assert(data@ == params_for(binding.source, binding.target, name@));
        }
        let ghost socketsv = self.config_view()[m as int].1;
        let mut listeners: Vec<ListenerSpec> = Vec::new();
        let n = self.config[m].1.sockets.len();
        let ghost total = spec_apply_mappings(p1, name@, socketsv, data@, 0);
        let mut k: usize = 0;
        while k < n
            invariant
                self.config@ == old(self).config@,
                0 <= m < self.config@.len(),
                socketsv == self.config_view()[m as int].1,
                n == self.config@[m as int].1.sockets@.len(),
                0 <= k <= n,
                self.plumber@.wf(),
                self.plumber@.has_route(name@),
                total == spec_apply_mappings(p1, name@, socketsv, data@, 0),
                total.0 == spec_apply_mappings(self.plumber@, name@, socketsv, data@, k as int).0,
                total.1 =~= listeners.deep_view() + spec_apply_mappings(
                    self.plumber@,
                    name@,
                    socketsv,
                    data@,
                    k as int,
                ).1,
            decreases n - k,
        {
            proof {
                assert(socketsv[k as int].1 == self.config@[m as int].1.sockets@[k as int].1@);
            }
            let ghost pk = self.plumber@;
            let ghost lk = listeners.deep_view();
            let conf = &self.config[m].1.sockets[k].1;
            let rendered = conf.resource.setup.render_template(&data);
            match rendered {
                None => {},
                Some(setup2) => {
                    let resource = ResourceConfig {
                        setup: setup2,
                        warmup_millis: conf.resource.warmup_millis,
                        healthcheck_cmd: match &conf.resource.healthcheck_cmd {
                            Some(h) => Some(h.clone()),
                            None => None,
                        },
                    };
                    let d = PlumbingDescriptor {
                        in_addr: None,
                        in_port: conf.source,
                        out_addr: None,
                        out_port: conf.target,
                        resource: Some(resource),
                    };
                    let out = self.plumber.attach(name, d);
                    proof {
                        crate::plumber::lemma_attach_keeps_route(pk, name@, d@);
                    }
                    match out {
                        Ok(Some(ls)) => {
                            listeners.push(ls);
                            proof {
                                assert(listeners.deep_view() =~~= lk.push(ls@));
                            }
                        },
                        Ok(None) => {},
                        Err(_) => {},
                    }
                },
            }
            proof {
                assert(total.1 =~= listeners.deep_view() + spec_apply_mappings(
                    self.plumber@,
                    name@,
                    socketsv,
                    data@,
                    k + 1,
                ).1);
            }
            k = k + 1;
        }
        let outcome = ResolveOutcome { source: binding.source, listeners };
        proof {
            assert(spec_apply_mappings(self.plumber@, name@, socketsv, data@, n as int).1
                =~= Seq::<ListenerSpecView>::empty());
            assert(total.1 =~= outcome.listeners.deep_view());
        }
        Some(outcome)
    }
}

} // verus!
