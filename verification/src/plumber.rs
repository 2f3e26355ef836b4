//! The routing table and its virtual-address allocator. A route is created on
//! first sight of its name, with a fresh address pair drawn from two
//! counters; port mappings are added to it at most once per source port.
//! Every operation is described by a spec-level transition on the table's
//! view, and the executable methods are proved to follow it.

use vstd::prelude::*;
use vstd::string::*;
use crate::addr::{Increment, IpAddress, SocketAddress};
use crate::config::{ResourceConfig, ResourceConfigView};

verus! {

/// Start of the "in" (source) address range: 127.127.0.0.
pub const IN_RANGE_BASE: u32 = 0x7F7F_0000;

/// Start of the "out" (target) address range: 127.191.0.0.
pub const OUT_RANGE_BASE: u32 = 0x7FBF_0000;

/// Why an operation on the routing table failed.
#[derive(Clone, Copy, PartialEq, Eq, Structural, Debug)]
pub enum PlumberError {
    /// A fresh route needed an address and a counter stands at the end of
    /// its space; allocation refuses to wrap around.
    AddressSpaceExhausted,
}

/// One forwarding of a route: source port to target port.
#[derive(Clone, Copy, PartialEq, Eq, Structural, Debug)]
pub struct MappedSocket {
    pub in_port: u16,
    pub out_port: u16,
}

/// The address pair a route answers with.
#[derive(Clone, Copy, PartialEq, Eq, Structural, Debug)]
pub struct AddressBinding {
    pub source: IpAddress,
    pub target: IpAddress,
}

/// A route: its name, its address pair, and its port mappings.
pub struct Plumbing {
    pub name: String,
    pub in_addr: IpAddress,
    pub out_addr: IpAddress,
    pub sockets: Vec<MappedSocket>,
}

#[verifier::ext_equal]
pub ghost struct PlumbingView {
    pub name: Seq<char>,
    pub in_addr: IpAddress,
    pub out_addr: IpAddress,
    pub sockets: Seq<MappedSocket>,
}

impl View for Plumbing {
    type V = PlumbingView;

    open spec fn view(&self) -> PlumbingView {
        PlumbingView {
            name: self.name@,
            in_addr: self.in_addr,
            out_addr: self.out_addr,
            sockets: self.sockets@,
        }
    }
}

/// A request to add one port mapping to a route. The explicit addresses, when
/// given, serve a route created by this very request; an existing route keeps
/// its own addresses, though an explicit target address still directs this
/// mapping's outbound side.
pub struct PlumbingDescriptor {
    pub in_addr: Option<IpAddress>,
    pub in_port: u16,
    pub out_addr: Option<IpAddress>,
    pub out_port: u16,
    pub resource: Option<ResourceConfig>,
}

#[verifier::ext_equal]
pub ghost struct PlumbingDescriptorView {
    pub in_addr: Option<IpAddress>,
    pub in_port: u16,
    pub out_addr: Option<IpAddress>,
    pub out_port: u16,
    pub resource: Option<ResourceConfigView>,
}

impl View for PlumbingDescriptor {
    type V = PlumbingDescriptorView;

    open spec fn view(&self) -> PlumbingDescriptorView {
        PlumbingDescriptorView {
            in_addr: self.in_addr,
            in_port: self.in_port,
            out_addr: self.out_addr,
            out_port: self.out_port,
            resource: match self.resource {
                Some(ref r) => Some(r@),
                None => None,
            },
        }
    }
}

/// What the caller must run for a newly recorded mapping: a listener bound on
/// `source`, forwarding to `target`, backed by `resource`.
pub struct ListenerSpec {
    pub source: SocketAddress,
    pub target: SocketAddress,
    pub resource: Option<ResourceConfig>,
}

#[verifier::ext_equal]
pub ghost struct ListenerSpecView {
    pub source: SocketAddress,
    pub target: SocketAddress,
    pub resource: Option<ResourceConfigView>,
}

impl View for ListenerSpec {
    type V = ListenerSpecView;

    open spec fn view(&self) -> ListenerSpecView {
        ListenerSpecView {
            source: self.source,
            target: self.target,
            resource: match self.resource {
                Some(ref r) => Some(r@),
                None => None,
            },
        }
    }
}

impl DeepView for ListenerSpec {
    type V = ListenerSpecView;

    open spec fn deep_view(&self) -> ListenerSpecView {
        self.view()
    }
}

/// The routing table: the two allocator counters and the routes.
pub struct Plumber {
    in_range: IpAddress,
    out_range: IpAddress,
    plumbing: Vec<Plumbing>,
}

#[verifier::ext_equal]
pub ghost struct PlumberView {
    pub in_range: IpAddress,
    pub out_range: IpAddress,
    pub routes: Seq<PlumbingView>,
}

impl View for Plumber {
    type V = PlumberView;

    closed spec fn view(&self) -> PlumberView {
        PlumberView {
            in_range: self.in_range,
            out_range: self.out_range,
            routes: Seq::new(self.plumbing@.len(), |i: int| self.plumbing@[i]@),
        }
    }
}

impl PlumberView {
    /// Table well-formedness: v4 counters, one route per name, and within a
    /// route at most one mapping per source port.
    pub open spec fn wf(self) -> bool {
        &&& self.in_range.is_v4()
        &&& self.out_range.is_v4()
        &&& forall|i: int, j: int|
            0 <= i < j < self.routes.len() ==> (#[trigger] self.routes[i]).name != (
            #[trigger] self.routes[j]).name
        &&& forall|i: int, k: int, l: int|
            0 <= i < self.routes.len() && 0 <= k < l < self.routes[i].sockets.len() ==> (
            #[trigger] self.routes[i].sockets[k]).in_port != (
            #[trigger] self.routes[i].sockets[l]).in_port
    }

    pub open spec fn has_route(self, name: Seq<char>) -> bool {
        exists|i: int| 0 <= i < self.routes.len() && (#[trigger] self.routes[i]).name == name
    }

    /// The index of the route named `name`; meaningful under `has_route` and
    /// `wf`, which make it unique.
    pub open spec fn route_index(self, name: Seq<char>) -> int {
        choose|i: int| 0 <= i < self.routes.len() && (#[trigger] self.routes[i]).name == name
    }

    pub open spec fn route(self, name: Seq<char>) -> PlumbingView {
        self.routes[self.route_index(name)]
    }

}

/// Whether the route `r` already maps source port `port`.
pub open spec fn maps_port(r: PlumbingView, port: u16) -> bool {
    exists|i: int| 0 <= i < r.sockets.len() && (#[trigger] r.sockets[i]).in_port == port
}

/// How many of `sockets` use source port `port`.
pub open spec fn count_port(sockets: Seq<MappedSocket>, port: u16) -> int
    decreases sockets.len(),
{
    if sockets.len() == 0 {
        0
    } else {
        count_port(sockets.drop_last(), port) + if sockets.last().in_port == port {
            1int
        } else {
            0int
        }
    }
}

/// The table a fresh `Plumber` holds: counters at their range bases, no
/// routes.
pub open spec fn initial_plumber() -> PlumberView {
    PlumberView {
        in_range: IpAddress::V4 { bits: IN_RANGE_BASE },
        out_range: IpAddress::V4 { bits: OUT_RANGE_BASE },
        routes: Seq::empty(),
    }
}

/// Creating the route `name` on a table that lacks it: each side without an
/// explicit address draws the next value from its counter; either counter at
/// the end of its space refuses, changing nothing.
pub open spec fn spec_create_route(
    p: PlumberView,
    name: Seq<char>,
    in_override: Option<IpAddress>,
    out_override: Option<IpAddress>,
) -> Result<PlumberView, PlumberError>
    recommends
        !p.has_route(name),
{
    let need_in = in_override is None;
    let need_out = out_override is None;
    if (need_in && !p.in_range.can_increment()) || (need_out && !p.out_range.can_increment()) {
        Err(PlumberError::AddressSpaceExhausted)
    } else {
        let in_range2 = if need_in {
            p.in_range.incremented()
        } else {
            p.in_range
        };
        let out_range2 = if need_out {
            p.out_range.incremented()
        } else {
            p.out_range
        };
        let in_addr = match in_override {
            Some(a) => a,
            None => in_range2,
        };
        let out_addr = match out_override {
            Some(a) => a,
            None => out_range2,
        };
        Ok(
            PlumberView {
                in_range: in_range2,
                out_range: out_range2,
                routes: p.routes.push(
                    PlumbingView { name, in_addr, out_addr, sockets: Seq::empty() },
                ),
            },
        )
    }
}

/// Resolving `name`: an existing route answers with its addresses and the
/// table stands; a fresh name allocates a route first.
pub open spec fn spec_resolve(p: PlumberView, name: Seq<char>) -> (PlumberView, Result<
    AddressBinding,
    PlumberError,
>) {
    if p.has_route(name) {
        let r = p.route(name);
        (p, Ok(AddressBinding { source: r.in_addr, target: r.out_addr }))
    } else {
        match spec_create_route(p, name, None, None) {
            Ok(p2) => (
                p2,
                Ok(
                    AddressBinding {
                        source: p2.routes.last().in_addr,
                        target: p2.routes.last().out_addr,
                    },
                ),
            ),
            Err(e) => (p, Err(e)),
        }
    }
}

/// Attaching a mapping: get or create the route, then, unless the route
/// already maps the descriptor's source port (a no-op), record the mapping
/// and answer with the listener to run for it.
pub open spec fn spec_get_or_create(
    p: PlumberView,
    name: Seq<char>,
    d: PlumbingDescriptorView,
) -> Result<PlumberView, PlumberError> {
    if p.has_route(name) {
        Ok(p)
    } else {
        spec_create_route(p, name, d.in_addr, d.out_addr)
    }
}

pub open spec fn spec_attach(p: PlumberView, name: Seq<char>, d: PlumbingDescriptorView) -> (
    PlumberView,
    Result<Option<ListenerSpecView>, PlumberError>,
) {
    match spec_get_or_create(p, name, d) {
        Err(e) => (p, Err(e)),
        Ok(p1) => {
            let i = p1.route_index(name);
            let r = p1.routes[i];
            if maps_port(r, d.in_port) {
                (p1, Ok(None))
            } else {
                let target_addr = match d.out_addr {
                    Some(a) => a,
                    None => r.out_addr,
                };
                let ls = ListenerSpecView {
                    source: SocketAddress { addr: r.in_addr, port: d.in_port },
                    target: SocketAddress { addr: target_addr, port: d.out_port },
                    resource: d.resource,
                };
                let r2 = PlumbingView {
                    name: r.name,
                    in_addr: r.in_addr,
                    out_addr: r.out_addr,
                    sockets: r.sockets.push(
                        MappedSocket { in_port: d.in_port, out_port: d.out_port },
                    ),
                };
                (
                    PlumberView {
                        in_range: p1.in_range,
                        out_range: p1.out_range,
                        routes: p1.routes.update(i, r2),
                    },
                    Ok(Some(ls)),
                )
            }
        },
    }
}

/// Under well-formedness, a route's index is pinned by its name.
pub proof fn lemma_route_index_unique(p: PlumberView, name: Seq<char>, i: int)
    requires
        p.wf(),
        0 <= i < p.routes.len(),
        p.routes[i].name == name,
    ensures
        p.has_route(name),
        p.route_index(name) == i,
{
    assert(p.has_route(name));
    let j = p.route_index(name);
    if i < j {
        assert(p.routes[i].name != p.routes[j].name);
    } else if j < i {
        assert(p.routes[j].name != p.routes[i].name);
    }
}

impl Plumber {
    /// A fresh table.
    pub fn new() -> (p: Self)
        ensures
            p@ == initial_plumber(),
            p@.wf(),
    {
        let p = Plumber {
            in_range: IpAddress::V4 { bits: IN_RANGE_BASE },
            out_range: IpAddress::V4 { bits: OUT_RANGE_BASE },
            plumbing: Vec::new(),
        };
        proof {
            assert(p@ =~~= initial_plumber());
        }
        p
    }

    /// Index of the route named `name`, if the table holds one.
    fn find_route(&self, name: &str) -> (r: Option<usize>)
        ensures
            match r {
                Some(i) => i < self@.routes.len() && self@.routes[i as int].name == name@,
                None => !self@.has_route(name@),
            },
    {
        let key = String::from_str(name);
        let mut i: usize = 0;
        while i < self.plumbing.len()
            invariant
                key@ == name@,
                0 <= i <= self.plumbing@.len(),
                self@.routes.len() == self.plumbing@.len(),
                forall|k: int| 0 <= k < i ==> (#[trigger] self@.routes[k]).name != name@,
            decreases self.plumbing@.len() - i,
        {
            if self.plumbing[i].name == key {
                proof {
                    assert(self@.routes[i as int].name == name@);
                }
                return Some(i);
            }
            i = i + 1;
        }
        None
    }

    /// Resolves `name` to its address binding, allocating the route on first
    /// sight; fails only when a fresh route is needed and an allocation
    /// counter is at the end of its space.
    pub fn resolve(&mut self, name: &str) -> (r: Result<AddressBinding, PlumberError>)
        requires
            old(self)@.wf(),
        ensures
            final(self)@.wf(),
            final(self)@ == spec_resolve(old(self)@, name@).0,
            r == spec_resolve(old(self)@, name@).1,
    {
        match self.find_route(name) {
            Some(i) => {
                proof {
                    lemma_route_index_unique(self@, name@, i as int);
                }
                Ok(
                    AddressBinding {
                        source: self.plumbing[i].in_addr,
                        target: self.plumbing[i].out_addr,
                    },
                )
            },
            None => {
                if !self.in_range.can_allocate_next() || !self.out_range.can_allocate_next() {
                    return Err(PlumberError::AddressSpaceExhausted);
                }
                let in_addr = self.in_range.increment();
                let out_addr = self.out_range.increment();
                self.plumbing.push(
                    Plumbing {
                        name: String::from_str(name),
                        in_addr,
                        out_addr,
                        sockets: Vec::new(),
                    },
                );
                proof {
                    let expected = spec_create_route(old(self)@, name@, None, None);
                    assert(expected is Ok);
                    assert(self@ =~~= expected.unwrap());
                    assert forall|i: int, j: int|
                        0 <= i < j < self@.routes.len() implies (
                    #[trigger] self@.routes[i]).name != (#[trigger] self@.routes[j]).name by {
                        if j + 1 == self@.routes.len() {
                            assert(self@.routes[i].name == old(self)@.routes[i].name);
                        }
                    }
                }
                Ok(AddressBinding { source: in_addr, target: out_addr })
            },
        }
    }

    /// Attaches one port mapping to the route named `name`, creating the
    /// route if need be. An already-mapped source port is left as it is
    /// (`Ok(None)`); a recorded mapping answers with the listener the caller
    /// must run for it (`Ok(Some(..))`). Fails only when a fresh route is
    /// needed and an allocation counter is at the end of its space; a name
    /// the table already holds never fails.
    pub fn attach(&mut self, name: &str, descriptor: PlumbingDescriptor) -> (r: Result<
        Option<ListenerSpec>,
        PlumberError,
    >)
        requires
            old(self)@.wf(),
        ensures
            final(self)@.wf(),
            final(self)@ == spec_attach(old(self)@, name@, descriptor@).0,
            match (r, spec_attach(old(self)@, name@, descriptor@).1) {
                (Ok(Some(ls)), Ok(Some(lv))) => ls@ == lv,
                (Ok(None), Ok(None)) => true,
                (Err(e), Err(ev)) => e == ev,
                _ => false,
            },
            old(self)@.has_route(name@) ==> r is Ok,
    {
        let i: usize = match self.find_route(name) {
            Some(i) => {
                proof {
                    lemma_route_index_unique(self@, name@, i as int);
                }
                i
            },
            None => {
                let need_in = descriptor.in_addr.is_none();
                let need_out = descriptor.out_addr.is_none();
                if (need_in && !self.in_range.can_allocate_next()) || (need_out
                    && !self.out_range.can_allocate_next()) {
                    return Err(PlumberError::AddressSpaceExhausted);
                }
                let in_addr = match descriptor.in_addr {
                    Some(a) => a,
                    None => self.in_range.increment(),
                };
                let out_addr = match descriptor.out_addr {
                    Some(a) => a,
                    None => self.out_range.increment(),
                };
                self.plumbing.push(
                    Plumbing {
                        name: String::from_str(name),
                        in_addr,
                        out_addr,
                        sockets: Vec::new(),
                    },
                );
                proof {
                    let expected = spec_create_route(
                        old(self)@,
                        name@,
                        descriptor@.in_addr,
                        descriptor@.out_addr,
                    );
                    assert(expected is Ok);
                    assert(self@ =~~= expected.unwrap());
                    assert forall|a: int, b: int|
                        0 <= a < b < self@.routes.len() implies (
                    #[trigger] self@.routes[a]).name != (#[trigger] self@.routes[b]).name by {
                        if b + 1 == self@.routes.len() {
                            assert(self@.routes[a].name == old(self)@.routes[a].name);
                        }
                    }
                    lemma_route_index_unique(self@, name@, self@.routes.len() - 1);
                }
                self.plumbing.len() - 1
            },
        };
        let ghost p1 = self@;
        proof {
            assert(p1.wf());
            assert(p1.route_index(name@) == i as int);
            assert(spec_get_or_create(old(self)@, name@, descriptor@) == Ok::<
                PlumberView,
                PlumberError,
            >(p1));
        }
        let mut k: usize = 0;
        let n = self.plumbing[i].sockets.len();
        while k < n
            invariant
                self@ == p1,
                p1.wf(),
                p1.route_index(name@) == i as int,
                spec_get_or_create(old(self)@, name@, descriptor@) == Ok::<
                    PlumberView,
                    PlumberError,
                >(p1),
                0 <= i < self.plumbing@.len(),
                n == self@.routes[i as int].sockets.len(),
                0 <= k <= n,
                forall|m: int|
                    0 <= m < k ==> (#[trigger] self@.routes[i as int].sockets[m]).in_port
                        != descriptor.in_port,
            decreases n - k,
        {
            if self.plumbing[i].sockets[k].in_port == descriptor.in_port {
                return Ok(None);
            }
            k = k + 1;
        }
        let mut route = self.plumbing.remove(i);
        let target_addr = match descriptor.out_addr {
            Some(a) => a,
            None => route.out_addr,
        };
        let listener = ListenerSpec {
            source: SocketAddress { addr: route.in_addr, port: descriptor.in_port },
            target: SocketAddress { addr: target_addr, port: descriptor.out_port },
            resource: descriptor.resource,
        };
        route.sockets.push(
            MappedSocket { in_port: descriptor.in_port, out_port: descriptor.out_port },
        );
        self.plumbing.insert(i, route);
        proof {
            let (pf, rf) = spec_attach(old(self)@, name@, descriptor@);
            assert(self@ =~~= pf);
            assert(listener@ =~~= rf.unwrap().unwrap());
            assert forall|a: int, b: int|
                0 <= a < b < self@.routes.len() implies (#[trigger] self@.routes[a]).name != (
            #[trigger] self@.routes[b]).name by {
                assert(self@.routes[a].name == p1.routes[a].name);
                assert(self@.routes[b].name == p1.routes[b].name);
            }
        }
        Ok(Some(listener))
    }

    /// Gives the routes up for shutdown, emptying the table; the caller joins
    /// each route's listener tasks. The routes come out in creation order.
    pub fn join(self) -> (routes: Vec<Plumbing>)
        ensures
            routes@.len() == self@.routes.len(),
            forall|i: int| 0 <= i < routes@.len() ==> (#[trigger] routes@[i])@ == self@.routes[i],
    {
        self.plumbing
    }

    /// Read access to the routes, in creation order.
    pub fn routes(&self) -> (routes: &Vec<Plumbing>)
        ensures
            routes@.len() == self@.routes.len(),
            forall|i: int| 0 <= i < routes@.len() ==> (#[trigger] routes@[i])@ == self@.routes[i],
    {
        &self.plumbing
    }
}

/// Creating a fresh route keeps the table well-formed.
pub proof fn lemma_create_route_wf(
    p: PlumberView,
    name: Seq<char>,
    in_override: Option<IpAddress>,
    out_override: Option<IpAddress>,
)
    requires
        p.wf(),
        !p.has_route(name),
        spec_create_route(p, name, in_override, out_override) is Ok,
    ensures
        spec_create_route(p, name, in_override, out_override).unwrap().wf(),
        spec_create_route(p, name, in_override, out_override).unwrap().routes == p.routes.push(
            PlumbingView {
                name,
                in_addr: spec_create_route(p, name, in_override, out_override).unwrap().routes.last().in_addr,
                out_addr: spec_create_route(p, name, in_override, out_override).unwrap().routes.last().out_addr,
                sockets: Seq::empty(),
            },
        ),
{
    let p2 = spec_create_route(p, name, in_override, out_override).unwrap();
    assert forall|i: int, j: int| 0 <= i < j < p2.routes.len() implies (
    #[trigger] p2.routes[i]).name != (#[trigger] p2.routes[j]).name by {
        if j + 1 == p2.routes.len() {
            assert(p2.routes[i] == p.routes[i]);
        }
    }
    assert forall|i: int, k: int, l: int|
        0 <= i < p2.routes.len() && 0 <= k < l < p2.routes[i].sockets.len() implies (
    #[trigger] p2.routes[i].sockets[k]).in_port != (#[trigger] p2.routes[i].sockets[l]).in_port by {
        assert(i < p.routes.len());
        assert(p2.routes[i] == p.routes[i]);
    }
    assert(p2.routes =~~= p.routes.push(p2.routes.last()));
}

/// A binding never moves: resolving a name a second time answers with the
/// identical binding and leaves the table exactly as it was.
pub proof fn lemma_resolve_idempotent(p: PlumberView, name: Seq<char>)
    requires
        p.wf(),
    ensures
        ({
            let (p1, r1) = spec_resolve(p, name);
            let (p2, r2) = spec_resolve(p1, name);
            p2 == p1 && r2 == r1
        }),
{
    let (p1, r1) = spec_resolve(p, name);
    if p.has_route(name) {
    } else if spec_create_route(p, name, None, None) is Ok {
        lemma_create_route_wf(p, name, None, None);
        lemma_route_index_unique(p1, name, p1.routes.len() - 1);
    }
}

/// No socket-port match means a zero count.
proof fn lemma_count_port_zero(sockets: Seq<MappedSocket>, port: u16)
    requires
        forall|k: int| 0 <= k < sockets.len() ==> (#[trigger] sockets[k]).in_port != port,
    ensures
        count_port(sockets, port) == 0,
    decreases sockets.len(),
{
    if sockets.len() > 0 {
        lemma_count_port_zero(sockets.drop_last(), port);
    }
}

/// Under per-route port uniqueness, a present port is counted exactly once.
proof fn lemma_count_port_one(sockets: Seq<MappedSocket>, port: u16, w: int)
    requires
        0 <= w < sockets.len(),
        sockets[w].in_port == port,
        forall|k: int, l: int|
            0 <= k < l < sockets.len() ==> (#[trigger] sockets[k]).in_port != (
            #[trigger] sockets[l]).in_port,
    ensures
        count_port(sockets, port) == 1,
    decreases sockets.len(),
{
    if w + 1 == sockets.len() {
        lemma_count_port_zero(sockets.drop_last(), port);
    } else {
        assert(sockets.last().in_port != port);
        lemma_count_port_one(sockets.drop_last(), port, w);
    }
}

/// Attaching the same source port under the same name twice records exactly
/// one mapping: the second attach reports nothing to run and leaves the
/// table exactly as the first left it.
pub proof fn lemma_attach_idempotent(
    p: PlumberView,
    name: Seq<char>,
    d1: PlumbingDescriptorView,
    d2: PlumbingDescriptorView,
)
    requires
        p.wf(),
        d1.in_port == d2.in_port,
        spec_attach(p, name, d1).1 is Ok,
    ensures
        ({
            let (p1, r1) = spec_attach(p, name, d1);
            let (p2, r2) = spec_attach(p1, name, d2);
            &&& p2 == p1
            &&& r2 == Ok::<Option<ListenerSpecView>, PlumberError>(None)
            &&& count_port(p1.route(name).sockets, d1.in_port) == 1
        }),
{
    let (p1, r1) = spec_attach(p, name, d1);
    let pc = spec_get_or_create(p, name, d1).unwrap();
    let i = pc.route_index(name);
    if !p.has_route(name) {
        lemma_create_route_wf(p, name, d1.in_addr, d1.out_addr);
        lemma_route_index_unique(pc, name, pc.routes.len() - 1);
    }
    assert(pc.wf());
    assert(0 <= i < pc.routes.len() && pc.routes[i].name == name);
    let r = pc.routes[i];
    if exists|k: int| 0 <= k < r.sockets.len() && (#[trigger] r.sockets[k]).in_port == d1.in_port {
        // the first attach was a no-op; the table already held the mapping
        let w = choose|k: int|
            0 <= k < r.sockets.len() && (#[trigger] r.sockets[k]).in_port == d1.in_port;
        assert(p1 == pc);
        lemma_route_index_unique(p1, name, i);
        lemma_count_port_one(p1.route(name).sockets, d1.in_port, w);
        assert(spec_get_or_create(p1, name, d2) == Ok::<PlumberView, PlumberError>(p1));
    } else {
        // the first attach recorded the mapping at the end of the route
        let r2 = p1.routes[i];
        assert(r2.sockets == r.sockets.push(MappedSocket { in_port: d1.in_port, out_port: d1.out_port }));
        assert forall|a: int, b: int| 0 <= a < b < p1.routes.len() implies (
        #[trigger] p1.routes[a]).name != (#[trigger] p1.routes[b]).name by {
            assert(p1.routes[a].name == pc.routes[a].name);
            assert(p1.routes[b].name == pc.routes[b].name);
        }
        assert forall|a: int, k: int, l: int|
            0 <= a < p1.routes.len() && 0 <= k < l < p1.routes[a].sockets.len() implies (
        #[trigger] p1.routes[a].sockets[k]).in_port != (
        #[trigger] p1.routes[a].sockets[l]).in_port by {
            if a == i {
                assert(p1.routes[i] == r2);
                if l + 1 == r2.sockets.len() {
                    assert(r2.sockets[k] == r.sockets[k]);
                    assert(r2.sockets[l].in_port == d1.in_port);
                    assert(!maps_port(r, d1.in_port));
                    assert(r.sockets[k].in_port != d1.in_port);
                } else {
                    assert(r2.sockets[k] == r.sockets[k]);
                    assert(r2.sockets[l] == r.sockets[l]);
                    assert(pc.routes[i].sockets[k].in_port != pc.routes[i].sockets[l].in_port);
                }
            } else {
                assert(p1.routes[a] == pc.routes[a]);
                assert(pc.routes[a].sockets[k].in_port != pc.routes[a].sockets[l].in_port);
            }
        }
        assert(p1.wf());
        lemma_route_index_unique(p1, name, i);
        assert(p1.has_route(name));
        assert(spec_get_or_create(p1, name, d2) == Ok::<PlumberView, PlumberError>(p1));
        let w = r2.sockets.len() - 1;
        assert(r2.sockets[w].in_port == d1.in_port);
        lemma_count_port_one(p1.route(name).sockets, d1.in_port, w);
        assert(exists|k: int|
            0 <= k < p1.routes[i].sockets.len() && (#[trigger] p1.routes[i].sockets[k]).in_port
                == d2.in_port);
    }
}

/// A successful resolve leaves the table holding the name's route.
pub proof fn lemma_route_created_by_resolve(p: PlumberView, name: Seq<char>)
    requires
        p.wf(),
        spec_resolve(p, name).1 is Ok,
    ensures
        spec_resolve(p, name).0.has_route(name),
{
    if !p.has_route(name) {
        let p2 = spec_resolve(p, name).0;
        assert(p2.routes[p2.routes.len() - 1].name == name);
    }
}

/// Attaching under a name the table holds always succeeds and keeps the
/// route.
pub proof fn lemma_attach_keeps_route(p: PlumberView, name: Seq<char>, d: PlumbingDescriptorView)
    requires
        p.wf(),
        p.has_route(name),
    ensures
        spec_attach(p, name, d).1 is Ok,
        spec_attach(p, name, d).0.has_route(name),
{
    let i = p.route_index(name);
    let pf = spec_attach(p, name, d).0;
    assert(0 <= i < p.routes.len() && p.routes[i].name == name);
    assert(pf.routes[i].name == name);
}

/// Attaching under a name the table holds: the attach succeeds, the route
/// keeps its addresses and its place, mapped ports only accumulate, the
/// attached port is mapped afterwards, and the attach is a no-op exactly
/// when its port was mapped already.
pub proof fn lemma_attach_properties(p: PlumberView, name: Seq<char>, d: PlumbingDescriptorView)
    requires
        p.wf(),
        p.has_route(name),
    ensures
        ({
            let (pf, res) = spec_attach(p, name, d);
            &&& res is Ok
            &&& pf.wf()
            &&& pf.has_route(name)
            &&& pf.route_index(name) == p.route_index(name)
            &&& pf.routes.len() == p.routes.len()
            &&& pf.in_range == p.in_range
            &&& pf.out_range == p.out_range
            &&& pf.route(name).name == name
            &&& pf.route(name).in_addr == p.route(name).in_addr
            &&& pf.route(name).out_addr == p.route(name).out_addr
            &&& forall|q: u16| maps_port(p.route(name), q) ==> maps_port(pf.route(name), q)
            &&& maps_port(pf.route(name), d.in_port)
            &&& ((res == Ok::<Option<ListenerSpecView>, PlumberError>(None)) <==> maps_port(
                p.route(name),
                d.in_port,
            ))
            &&& forall|a: int|
                0 <= a < p.routes.len() && a != p.route_index(name) ==> pf.routes[a] == p.routes[a]
        }),
{
    let i = p.route_index(name);
    let (pf, res) = spec_attach(p, name, d);
    let r = p.routes[i];
    assert(0 <= i < p.routes.len() && r.name == name);
    if maps_port(r, d.in_port) {
        assert(pf == p);
    } else {
        let r2 = pf.routes[i];
        assert(r2.sockets == r.sockets.push(MappedSocket { in_port: d.in_port, out_port: d.out_port }));
        assert forall|a: int, b: int| 0 <= a < b < pf.routes.len() implies (
        #[trigger] pf.routes[a]).name != (#[trigger] pf.routes[b]).name by {
            assert(pf.routes[a].name == p.routes[a].name);
            assert(pf.routes[b].name == p.routes[b].name);
        }
        assert forall|a: int, k: int, l: int|
            0 <= a < pf.routes.len() && 0 <= k < l < pf.routes[a].sockets.len() implies (
        #[trigger] pf.routes[a].sockets[k]).in_port != (
        #[trigger] pf.routes[a].sockets[l]).in_port by {
            if a == i {
                assert(pf.routes[i] == r2);
                if l + 1 == r2.sockets.len() {
                    assert(r2.sockets[k] == r.sockets[k]);
                    assert(r2.sockets[l].in_port == d.in_port);
                    assert(!maps_port(r, d.in_port));
                    assert(r.sockets[k].in_port != d.in_port);
                } else {
                    assert(r2.sockets[k] == r.sockets[k]);
                    assert(r2.sockets[l] == r.sockets[l]);
                    assert(p.routes[i].sockets[k].in_port != p.routes[i].sockets[l].in_port);
                }
            } else {
                assert(pf.routes[a] == p.routes[a]);
                assert(p.routes[a].sockets[k].in_port != p.routes[a].sockets[l].in_port);
            }
        }
        assert(pf.wf());
        lemma_route_index_unique(pf, name, i);
        assert forall|q: u16| maps_port(r, q) implies maps_port(r2, q) by {
            let w = choose|x: int| 0 <= x < r.sockets.len() && (#[trigger] r.sockets[x]).in_port
                == q;
            assert(r2.sockets[w].in_port == q);
        }
        assert(r2.sockets[r2.sockets.len() - 1].in_port == d.in_port);
    }
}

/// The shape of a table built by `resolve` alone: every route's addresses
/// came off the two counters, one pair per route, in creation order.
pub open spec fn allocation_shaped(p: PlumberView) -> bool {
    &&& p.in_range.is_v4()
    &&& p.out_range.is_v4()
    &&& p.in_range.v4_bits() as int == IN_RANGE_BASE + p.routes.len()
    &&& p.out_range.v4_bits() as int == OUT_RANGE_BASE + p.routes.len()
    &&& forall|i: int|
        0 <= i < p.routes.len() ==> (#[trigger] p.routes[i]).in_addr == (IpAddress::V4 {
            bits: (IN_RANGE_BASE + i + 1) as u32,
        })
    &&& forall|i: int|
        0 <= i < p.routes.len() ==> (#[trigger] p.routes[i]).out_addr == (IpAddress::V4 {
            bits: (OUT_RANGE_BASE + i + 1) as u32,
        })
}

/// A fresh table is allocation-shaped.
pub proof fn lemma_initial_allocation_shaped()
    ensures
        allocation_shaped(initial_plumber()),
{
}

/// `resolve` keeps a table allocation-shaped: an existing route changes
/// nothing, and a fresh route takes exactly the next value of each counter.
pub proof fn lemma_resolve_preserves_allocation_shape(p: PlumberView, name: Seq<char>)
    requires
        allocation_shaped(p),
    ensures
        allocation_shaped(spec_resolve(p, name).0),
{
    let p2 = spec_resolve(p, name).0;
    if !p.has_route(name) && spec_create_route(p, name, None, None) is Ok {
        assert forall|i: int| 0 <= i < p2.routes.len() implies (#[trigger] p2.routes[i]).in_addr
            == (IpAddress::V4 { bits: (IN_RANGE_BASE + i + 1) as u32 }) && p2.routes[i].out_addr
            == (IpAddress::V4 { bits: (OUT_RANGE_BASE + i + 1) as u32 }) by {
            if i < p.routes.len() {
                assert(p2.routes[i] == p.routes[i]);
            }
        }
    }
}

/// Fresh names draw addresses in strictly increasing counter order: with
/// room left in both ranges, two resolves of distinct unseen names both
/// succeed, and the second binding's addresses lie strictly above the
/// first's.
pub proof fn lemma_fresh_allocations_increase(p: PlumberView, n1: Seq<char>, n2: Seq<char>)
    requires
        p.wf(),
        allocation_shaped(p),
        !p.has_route(n1),
        !p.has_route(n2),
        n1 != n2,
        p.in_range.v4_bits() + 2 <= u32::MAX,
        p.out_range.v4_bits() + 2 <= u32::MAX,
    ensures
        ({
            let (p1, r1) = spec_resolve(p, n1);
            let (p2, r2) = spec_resolve(p1, n2);
            &&& r1 is Ok
            &&& r2 is Ok
            &&& r1.unwrap().source.v4_bits() < r2.unwrap().source.v4_bits()
            &&& r1.unwrap().target.v4_bits() < r2.unwrap().target.v4_bits()
        }),
{
    let (p1, r1) = spec_resolve(p, n1);
    lemma_create_route_wf(p, n1, None, None);
    assert(!p1.has_route(n2)) by {
        if p1.has_route(n2) {
            let w = p1.route_index(n2);
            assert(p1.routes[w].name == n2);
            if w < p.routes.len() {
                assert(p.routes[w].name == n2);
            }
        }
    }
}

/// A table built by `resolve` alone never repeats an address: within each
/// counter's family all addresses are distinct, and the two families stay
/// apart as long as the "in" range has not grown into the "out" range's
/// base.
pub proof fn lemma_allocated_addresses_distinct(p: PlumberView)
    requires
        allocation_shaped(p),
    ensures
        forall|i: int, j: int|
            0 <= i < j < p.routes.len() ==> (#[trigger] p.routes[i]).in_addr != (
            #[trigger] p.routes[j]).in_addr,
        forall|i: int, j: int|
            0 <= i < j < p.routes.len() ==> (#[trigger] p.routes[i]).out_addr != (
            #[trigger] p.routes[j]).out_addr,
        p.routes.len() <= OUT_RANGE_BASE - IN_RANGE_BASE ==> forall|i: int, j: int|
            0 <= i < p.routes.len() && 0 <= j < p.routes.len() ==> (
            #[trigger] p.routes[i]).in_addr != (#[trigger] p.routes[j]).out_addr,
{
    assert forall|i: int, j: int| 0 <= i < j < p.routes.len() implies (
    #[trigger] p.routes[i]).in_addr != (#[trigger] p.routes[j]).in_addr && p.routes[i].out_addr
        != p.routes[j].out_addr by {
        assert((IN_RANGE_BASE + i + 1) as u32 as int == IN_RANGE_BASE + i + 1);
        assert((IN_RANGE_BASE + j + 1) as u32 as int == IN_RANGE_BASE + j + 1);
        assert((OUT_RANGE_BASE + i + 1) as u32 as int == OUT_RANGE_BASE + i + 1);
        assert((OUT_RANGE_BASE + j + 1) as u32 as int == OUT_RANGE_BASE + j + 1);
    }
    if p.routes.len() <= OUT_RANGE_BASE - IN_RANGE_BASE {
        assert forall|i: int, j: int|
            0 <= i < p.routes.len() && 0 <= j < p.routes.len() implies (
        #[trigger] p.routes[i]).in_addr != (#[trigger] p.routes[j]).out_addr by {
            assert((IN_RANGE_BASE + i + 1) as u32 as int == IN_RANGE_BASE + i + 1);
            assert((OUT_RANGE_BASE + j + 1) as u32 as int == OUT_RANGE_BASE + j + 1);
            assert(IN_RANGE_BASE + i + 1 < OUT_RANGE_BASE + j + 1);
        }
    }
}

} // verus!
