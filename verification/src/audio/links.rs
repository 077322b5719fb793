//! Routing: turning a lit A1-A5 / B1-B3 button into real `PipeWire` links.
//!
//! A route between two nodes is not one link but one link *per channel*, so
//! a stereo route is two links that must be created and destroyed together.
//! This module keeps the bookkeeping for that: which ports there are, which
//! routes are wanted, and which of them have links. It says what has to be
//! joined; making a link is up to the caller, who hands it back with
//! [`Router::install`].
//!
//! Direction is from the graph's point of view, not the mixer's: we always
//! join the source node's **output** ports to the target node's **input**
//! ports. For a virtual strip that means its monitor ports, which is exactly
//! what should be heard downstream.

use vstd::prelude::*;

use crate::lists;
use crate::order;
use crate::props;
use crate::table::{Key, Table};
use crate::text;

verus! {

/// Which way a port faces.
#[derive(Debug, Clone, Copy, PartialEq, Eq, Structural)]
pub enum PortDirection {
    In,
    Out,
}

/// One port of one node.
#[derive(Debug, Clone)]
pub struct Port {
    pub id: u32,
    pub node_id: u32,
    pub direction: PortDirection,
    /// `FL`, `FR`, `MONO` and so on. Ports without a channel are ignored for
    /// routing.
    pub channel: String,
    /// Position within the node's ports of that direction, as `PipeWire`
    /// numbers them.
    ///
    /// Needed because a chain that carries sends has several output pairs
    /// and the channel names repeat across them: the first `FL` is the main
    /// output, the third is the reverb send. Only the order tells them
    /// apart.
    pub slot: u32,
}

/// Which end of a route a node is being folded at.
#[derive(Debug, Clone, Copy, PartialEq, Eq, Structural)]
pub enum End {
    Source,
    Target,
}

/// Which pair of ports a route uses at each end.
///
/// Zero on both sides is every ordinary route. The others exist because a
/// chain carrying sends has several output pairs and the channel names
/// repeat across them: the first `FL` is the main output, the third is the
/// reverb send, and only the order tells them apart.
#[derive(Debug, Clone, Copy, PartialEq, Eq, Hash, Structural)]
pub struct Tap {
    pub source_pair: u32,
    pub target_pair: u32,
}

impl Default for Tap {
    fn default() -> (tap: Tap)
        ensures
            tap == main_tap(),
    {
        Tap { source_pair: 0, target_pair: 0 }
    }
}

/// The tap of every ordinary route.
pub open spec fn main_tap() -> Tap {
    Tap { source_pair: 0, target_pair: 0 }
}

/// One route: two nodes, and which pair of ports at each end.
#[derive(Debug, Clone, Copy, PartialEq, Eq, Hash, Structural)]
pub struct Route {
    pub source: u32,
    pub target: u32,
    pub tap: Tap,
}

impl Route {
    /// The ordinary case: main output to main input.
    #[must_use]
    pub fn new(source: u32, target: u32) -> (route: Route)
        ensures
            route == (Route { source, target, tap: main_tap() }),
    {
        Route { source, target, tap: Tap::default() }
    }

    /// The same route, using a named pair at one or both ends.
    ///
    /// What the effect chains need: every strip sends into a pair of its
    /// own and every bus takes a pair of its own back, so the pair is the
    /// thing that tells one strip's send from another's.
    #[must_use]
    pub fn with_tap(self, tap: Tap) -> (route: Route)
        ensures
            route == (Route { source: self.source, target: self.target, tap }),
    {
        Route { source: self.source, target: self.target, tap }
    }

    /// Whether the route begins or ends at a node.
    pub open spec fn touches(self, node: u32) -> bool {
        self.source == node || self.target == node
    }

    /// Whether the route has a node at one of its ends.
    pub open spec fn has_at(self, end: End, node: u32) -> bool {
        match end {
            End::Source => self.source == node,
            End::Target => self.target == node,
        }
    }
}

impl Key for Route {
    type Model = Route;

    open spec fn model(&self) -> Route {
        *self
    }

    fn same(&self, other: &Route) -> (r: bool) {
        *self == *other
    }
}

/// One link to be made: an output port into an input port.
#[derive(Debug, Clone, Copy, PartialEq, Eq, Structural)]
pub struct Join {
    pub output_node: u32,
    pub output_port: u32,
    pub input_node: u32,
    pub input_port: u32,
}

/// The links one route needs.
#[derive(Debug)]
pub struct Plan {
    pub route: Route,
    pub joins: Vec<Join>,
}

// ---------------------------------------------------------------------
// Ports

/// Whether some port has this id.
pub open spec fn has_port(ports: Seq<Port>, id: u32) -> bool {
    exists|i: int| 0 <= i < ports.len() && (#[trigger] ports[i]).id == id
}

/// The ports with one more among them, in place of any with the same id.
pub open spec fn with_port(ports: Seq<Port>, port: Port) -> Seq<Port> {
    if has_port(ports, port.id) {
        ports.map_values(
            |p: Port|
                if p.id == port.id {
                    port
                } else {
                    p
                },
        )
    } else {
        ports.push(port)
    }
}

/// No two ports have one id.
pub open spec fn distinct_ports(ports: Seq<Port>) -> bool {
    forall|i: int, j: int|
        0 <= i < j < ports.len() ==> (#[trigger] ports[i]).id != (#[trigger] ports[j]).id
}

/// Whether a port is a routable one of a node.
pub open spec fn faces(p: Port, node: u32, direction: PortDirection) -> bool {
    p.node_id == node && p.direction == direction && p.channel@.len() > 0
}

/// The order ports are taken in: by channel.
pub open spec fn channel_ranks(ports: Seq<Port>) -> Seq<order::Rank> {
    ports.map_values(|p: Port| order::by_text(p.channel@))
}

/// A node's routable ports of one direction, by channel.
pub open spec fn ports_facing(ports: Seq<Port>, node: u32, direction: PortDirection) -> Seq<Port> {
    let facing = ports.filter(|p: Port| faces(p, node, direction));
    order::sorted(facing, channel_ranks(facing))
}

/// Whether a port is one of a numbered pair.
pub open spec fn in_pair(p: Port, pair: u32) -> bool {
    p.slot == pair * 2 || p.slot == pair * 2 + 1
}

/// One stereo pair of a node's ports, counting pairs from zero. Two ports
/// or fewer are the first pair whatever they are numbered.
pub open spec fn paired(
    ports: Seq<Port>,
    node: u32,
    direction: PortDirection,
    pair: u32,
) -> Seq<Port> {
    let facing = ports_facing(ports, node, direction);
    if pair == 0 && facing.len() <= 2 {
        facing
    } else {
        facing.filter(|p: Port| in_pair(p, pair))
    }
}

/// The ports a list of references stands for.
pub open spec fn these(list: Seq<&Port>) -> Seq<Port> {
    list.map_values(|p: &Port| *p)
}

// ---------------------------------------------------------------------
// Joins

/// Joining one port to another.
pub open spec fn joined(out: Port, input: Port) -> Join {
    Join {
        output_node: out.node_id,
        output_port: out.id,
        input_node: input.node_id,
        input_port: input.id,
    }
}

/// Whether an output feeds an input: the same channel, a mono output into
/// anything, and everything into everything where the route is folded.
pub open spec fn feeds(folded: bool, out: Port, input: Port) -> bool {
    folded || input.channel@ == out.channel@ || out.channel@ == "MONO"@
}

/// One output joined to every input it feeds.
pub open spec fn fan(folded: bool, out: Port, ins: Seq<Port>) -> Seq<Join> {
    ins.filter(|i: Port| feeds(folded, out, i)).map_values(|i: Port| joined(out, i))
}

/// Every output joined to every input it feeds, output by output.
pub open spec fn fans(folded: bool, outs: Seq<Port>, ins: Seq<Port>) -> Seq<Join>
    decreases outs.len(),
{
    if outs.len() == 0 {
        seq![]
    } else {
        fans(folded, outs.drop_last(), ins) + fan(folded, outs.last(), ins)
    }
}

/// The first output joined to the first input, the second to the second.
pub open spec fn zipped(outs: Seq<Port>, ins: Seq<Port>) -> Seq<Join> {
    Seq::new(
        if outs.len() < ins.len() {
            outs.len()
        } else {
            ins.len()
        },
        |i: int| joined(outs[i], ins[i]),
    )
}

/// What a route needs joined, with the ports there are.
pub open spec fn joins_for(ports: Seq<Port>, folded: bool, route: Route) -> Seq<Join> {
    let outs = paired(ports, route.source, PortDirection::Out, route.tap.source_pair);
    let ins = paired(ports, route.target, PortDirection::In, route.tap.target_pair);
    if route.tap != main_tap() {
        zipped(outs, ins)
    } else {
        fans(folded, outs, ins)
    }
}

/// One plan for each route, with what it needs joined.
pub open spec fn are_plans(
    plans: Seq<Plan>,
    routes: Seq<Route>,
    joins: spec_fn(Route) -> Seq<Join>,
) -> bool {
    &&& plans.len() == routes.len()
    &&& forall|i: int|
        0 <= i < plans.len() ==> (#[trigger] plans[i]).route == routes[i] && plans[i].joins@
            == joins(routes[i])
}

/// Every route but one.
pub open spec fn other_than(route: Route) -> spec_fn(Route) -> bool {
    |r: Route| r != route
}

/// The wanted routes after one was turned on or off.
pub open spec fn wishes_after(desired: Seq<Route>, route: Route, enabled: bool) -> Seq<Route> {
    if !enabled {
        desired.filter(other_than(route))
    } else if desired.contains(route) {
        desired
    } else {
        desired.push(route)
    }
}

/// Only what is wanted has links, each at least one.
pub open spec fn only_wanted<L>(links: Map<Route, Vec<L>>, desired: Seq<Route>) -> bool {
    forall|route: Route| #[trigger]
        links.contains_key(route) ==> desired.contains(route) && links[route]@.len() > 0
}

/// Every port currently known, and every link that was made.
pub struct Router<L> {
    ports: Vec<Port>,
    /// Links we own, keyed by the route that asked for them. Not every link
    /// in the graph, only ours, so we never tear down someone else's.
    routes: Table<Route, Vec<L>>,
    /// Routes that were asked for, whether or not they exist yet.
    ///
    /// A node is registered before its ports are, so a route requested the
    /// instant a sink appears has nothing to connect. Remembering the intent
    /// separately lets [`Self::retry_pending`] complete it once the ports
    /// arrive; each button is sent once and nobody retries for us.
    desired: Vec<Route>,
    /// Nodes to fold down to mono, by which end of a route they sit on.
    ///
    /// Done in the graph rather than with a filter: joining every output to
    /// every input sums both channels into both sides, which is what a mono
    /// button does. It costs four links instead of two and no processing.
    ///
    /// Both ends are needed because the two halves of the mixer are not
    /// symmetric. A strip is the source of its routes, so folding it means
    /// folding what leaves it. A physical bus *is* the hardware output node
    /// and has no outgoing routes at all: everything arrives at it, so
    /// folding it means folding everything that feeds it.
    mono_sources: Vec<u32>,
    mono_targets: Vec<u32>,
}

impl<L> Default for Router<L> {
    fn default() -> (router: Self)
        ensures
            router.wf(),
            router.ports() == Seq::<Port>::empty(),
            router.desired() == Seq::<Route>::empty(),
            router.links() == Map::<Route, Vec<L>>::empty(),
            forall|end: End| router.mono(end) == Set::<u32>::empty(),
    {
        let router = Router {
            ports: Vec::new(),
            routes: Table::new(),
            desired: Vec::new(),
            mono_sources: Vec::new(),
            mono_targets: Vec::new(),
        };
        proof {
            assert forall|end: End| router.mono(end) == Set::<u32>::empty() by {
                assert(router.mono(end) =~= Set::<u32>::empty());
            }
        }
        router
    }
}

impl<L> Router<L> {
    /// The ports, in the order they appeared.
    pub closed spec fn ports(&self) -> Seq<Port> {
        self.ports@
    }

    /// The routes that are wanted, in the order they were asked for.
    pub closed spec fn desired(&self) -> Seq<Route> {
        self.desired@
    }

    /// The links that each route has.
    pub closed spec fn links(&self) -> Map<Route, Vec<L>> {
        self.routes@
    }

    /// The nodes that are folded at one end of their routes.
    pub closed spec fn mono(&self, end: End) -> Set<u32> {
        match end {
            End::Source => self.mono_sources@.to_set(),
            End::Target => self.mono_targets@.to_set(),
        }
    }

    /// The tables behind the models hold nothing twice.
    pub closed spec fn inner_wf(&self) -> bool {
        &&& self.routes.wf()
        &&& self.mono_sources@.no_duplicates()
        &&& self.mono_targets@.no_duplicates()
    }

    /// No two ports have one id, no route is wanted twice, and only what is
    /// wanted has links, each at least one.
    pub open spec fn wf(&self) -> bool {
        &&& self.inner_wf()
        &&& distinct_ports(self.ports())
        &&& self.desired().no_duplicates()
        &&& only_wanted(self.links(), self.desired())
    }

    /// Whether a route is folded down to mono.
    pub open spec fn is_folded(&self, route: Route) -> bool {
        self.mono(End::Source).contains(route.source) || self.mono(End::Target).contains(
            route.target,
        )
    }

    /// What a route needs joined right now.
    pub open spec fn joins(&self, route: Route) -> Seq<Join> {
        joins_for(self.ports(), self.is_folded(route), route)
    }

    /// How many links a route has.
    pub open spec fn held(&self, route: Route) -> nat {
        if self.links().contains_key(route) {
            self.links()[route]@.len()
        } else {
            0
        }
    }

    /// Whether more channels of a route could be joined than are.
    pub open spec fn is_stale(&self, route: Route) -> bool {
        self.joins(route).len() > self.held(route)
    }

    /// Everything but the links is as it was.
    pub open spec fn same_wishes(&self, other: &Self) -> bool {
        &&& self.ports() == other.ports()
        &&& self.desired() == other.desired()
        &&& self.mono(End::Source) == other.mono(End::Source)
        &&& self.mono(End::Target) == other.mono(End::Target)
    }

    /// After a port was noted.
    pub open spec fn has_noted(&self, after: &Self, port: Port) -> bool {
        &&& after.ports() == with_port(self.ports(), port)
        &&& after.desired() == self.desired()
        &&& after.links() == self.links()
        &&& forall|end: End| #[trigger] after.mono(end) == self.mono(end)
    }

    /// After a route was turned on or off.
    pub open spec fn has_turned(&self, after: &Self, route: Route, enabled: bool) -> bool {
        &&& after.ports() == self.ports()
        &&& forall|end: End| #[trigger] after.mono(end) == self.mono(end)
        &&& after.desired() == wishes_after(self.desired(), route, enabled)
        &&& after.links() == (if enabled {
            self.links()
        } else {
            self.links().remove(route)
        })
    }

    /// After the links of some routes were let go.
    pub open spec fn has_let_go(&self, after: &Self, routes: Seq<Route>) -> bool {
        &&& after.same_wishes(self)
        &&& after.links() == self.links().remove_keys(routes.to_set())
    }

    /// The wanted routes that have a node at one end, in the order they were
    /// asked for.
    pub open spec fn wanted_at(&self, end: End, node: u32) -> Seq<Route> {
        self.desired().filter(|r: Route| r.has_at(end, node))
    }

    /// The routes that folding a node, or unfolding it, makes anew.
    pub open spec fn affected(&self, node: u32, end: End, mono: bool) -> Seq<Route> {
        if self.mono(end).contains(node) == mono {
            seq![]
        } else {
            self.wanted_at(end, node)
        }
    }

    /// After a node was folded or unfolded.
    pub open spec fn has_folded(&self, after: &Self, node: u32, end: End, mono: bool) -> bool {
        &&& after.ports() == self.ports()
        &&& after.desired() == self.desired()
        &&& forall|e: End| #[trigger]
            after.mono(e) == (if e != end {
                self.mono(e)
            } else if mono {
                self.mono(e).insert(node)
            } else {
                self.mono(e).remove(node)
            })
        &&& after.links() == self.links().remove_keys(self.affected(node, end, mono).to_set())
    }

    /// After every route that touches a node was dropped.
    pub open spec fn has_forgotten(&self, after: &Self, node: u32) -> bool {
        &&& forall|end: End| #[trigger] after.mono(end) == self.mono(end)
        &&& after.desired() == self.desired().filter(|r: Route| !r.touches(node))
        &&& forall|r: Route| #[trigger]
            after.links().contains_key(r) == (self.links().contains_key(r) && !r.touches(node))
        &&& forall|r: Route| #[trigger]
            after.links().contains_key(r) ==> after.links()[r] == self.links()[r]
    }

    /// Note a port, in place of any with the same id.
    pub fn add_port(&mut self, port: Port)
        requires
            old(self).wf(),
        ensures
            final(self).wf(),
            old(self).has_noted(final(self), port),
    {
        let ghost before = self.ports@;
        match self.position(port.id) {
            Some(i) => {
                self.ports[i] = port;
                proof {
                    assert(has_port(before, port.id));
                    assert(self.ports@ =~= with_port(before, port));
                    assert forall|p: int, q: int| 0 <= p < q < self.ports@.len() implies (
                    #[trigger] self.ports@[p]).id != (#[trigger] self.ports@[q]).id by {
                        assert(before[p].id != before[q].id);
                    }
                }
            },
            None => {
                self.ports.push(port);
                proof {
                    assert forall|p: int, q: int| 0 <= p < q < self.ports@.len() implies (
                    #[trigger] self.ports@[p]).id != (#[trigger] self.ports@[q]).id by {
                        assert(before[p].id != port.id);
                        if q < before.len() {
                            assert(before[p].id != before[q].id);
                        }
                    }
                }
            },
        }
    }

    fn position(&self, id: u32) -> (at: Option<usize>)
        ensures
            match at {
                Some(i) => i < self.ports@.len() && self.ports@[i as int].id == id,
                None => !has_port(self.ports@, id),
            },
    {
        for i in 0..self.ports.len()
            invariant
                forall|j: int| 0 <= j < i ==> (#[trigger] self.ports@[j]).id != id,
        {
            if self.ports[i].id == id {
                return Some(i);
            }
        }
        None
    }

    /// Forget a port.
    pub fn remove_port(&mut self, id: u32)
        requires
            old(self).wf(),
        ensures
            final(self).wf(),
            final(self).ports() == old(self).ports().filter(|p: Port| p.id != id),
            final(self).desired() == old(self).desired(),
            final(self).links() == old(self).links(),
            forall|end: End| final(self).mono(end) == old(self).mono(end),
    {
        let ghost before = self.ports@;
        let ghost keep = |p: Port| p.id != id;
        match self.position(id) {
            Some(i) => {
                self.ports.remove(i);
                proof {
                    lists::all_but_one(before, i as int, keep);
                    assert forall|p: int, q: int| 0 <= p < q < self.ports@.len() implies (
                    #[trigger] self.ports@[p]).id != (#[trigger] self.ports@[q]).id by {
                        let pp = if p < i { p } else { p + 1 };
                        let qq = if q < i { q } else { q + 1 };
                        assert(before[pp].id != before[qq].id);
                    }
                }
            },
            None => {
                proof {
                    assert forall|j: int| 0 <= j < before.len() implies keep(
                        #[trigger] before[j],
                    ) by {}
                    lists::all_kept(before, keep);
                }
            },
        }
    }

    /// A node's routable ports of one direction, by channel.
    pub fn ports_of(&self, node_id: u32, direction: PortDirection) -> (list: Vec<&Port>)
        ensures
            these(list@) == ports_facing(self.ports(), node_id, direction),
    {
        let ghost keep = |p: Port| faces(p, node_id, direction);
        let mut facing: Vec<&Port> = Vec::new();
        let mut keys: Vec<order::Key> = Vec::new();
        proof {
            lists::filter_none(self.ports@, keep);
            assert(these(facing@) =~= Seq::empty());
            assert(order::ranks(keys@) =~= channel_ranks(these(facing@)));
        }
        for i in 0..self.ports.len()
            invariant
                keep == (|p: Port| faces(p, node_id, direction)),
                these(facing@) == self.ports@.take(i as int).filter(keep),
                order::ranks(keys@) == channel_ranks(these(facing@)),
        {
            let port = &self.ports[i];
            let ghost so_far = these(facing@);
            let ghost ranks_so_far = order::ranks(keys@);
            if port.node_id == node_id && port.direction == direction && !port.channel.as_str().is_empty() {
                facing.push(port);
                keys.push(order::Key { late: false, text: port.channel.clone() });
                proof {
                    assert(these(facing@) =~= so_far.push(*port));
                    assert(order::ranks(keys@) =~= ranks_so_far.push(order::by_text(port.channel@)));
                    assert(channel_ranks(these(facing@)) =~= channel_ranks(so_far).push(
                        order::by_text(port.channel@),
                    ));
                }
            }
            proof {
                lists::filter_step(self.ports@, i as int, keep);
            }
        }
        proof {
            assert(self.ports@.take(self.ports@.len() as int) =~= self.ports@);
            assert(facing@.len() == these(facing@).len());
            assert(keys@.len() == order::ranks(keys@).len());
        }
        let order = order::order(&keys);
        let mut list: Vec<&Port> = Vec::new();
        for i in 0..order.len()
            invariant
                order@.len() == facing@.len(),
                forall|p: int| 0 <= p < order@.len() ==> #[trigger] order@[p] < facing@.len(),
                list@.len() == i,
                forall|p: int| 0 <= p < i ==> #[trigger] list@[p] == facing@[order@[p] as int],
        {
            list.push(facing[order[i]]);
        }
        proof {
            let all = these(facing@);
            let places = order::order_of(channel_ranks(all), all.len());
            assert forall|p: int| 0 <= p < list@.len() implies these(list@)[p] == order::sorted(
                all,
                channel_ranks(all),
            )[p] by {
                assert(order@.map_values(|i: usize| i as int)[p] == order@[p] as int);
            }
            assert(these(list@) =~= order::sorted(all, channel_ranks(all)));
        }
        list
    }

    /// One stereo pair of a node's ports, counting pairs from zero.
    ///
    /// A chain carrying sends has several pairs and the channel names repeat
    /// across them, so the pair is picked by position and only then matched
    /// by channel within it.
    pub fn pair_of(&self, node: u32, direction: PortDirection, pair: u32) -> (list: Vec<&Port>)
        ensures
            these(list@) == paired(self.ports(), node, direction, pair),
    {
        let ports = self.ports_of(node, direction);
        proof {
            assert(ports@.len() == these(ports@).len());
        }
        if pair == 0 && ports.len() <= 2 {
            return ports;
        }
        let ghost all = these(ports@);
        let ghost keep = |p: Port| in_pair(p, pair);
        let first: u64 = pair as u64 * 2;
        let mut list: Vec<&Port> = Vec::new();
        proof {
            lists::filter_none(all, keep);
            assert(these(list@) =~= Seq::empty());
        }
        for i in 0..ports.len()
            invariant
                all == these(ports@),
                keep == (|p: Port| in_pair(p, pair)),
                first == pair * 2,
                these(list@) == all.take(i as int).filter(keep),
        {
            let port = ports[i];
            let ghost so_far = these(list@);
            if port.slot as u64 == first || port.slot as u64 == first + 1 {
                list.push(port);
                proof {
                    assert(these(list@) =~= so_far.push(*port));
                }
            }
            proof {
                assert(all[i as int] == *port);
                lists::filter_step(all, i as int, keep);
            }
        }
        proof {
            assert(all.take(all.len() as int) =~= all);
        }
        list
    }

    /// Whether a route is folded down to mono.
    pub fn folded(&self, source: u32, target: u32) -> (r: bool)
        ensures
            r == (self.mono(End::Source).contains(source) || self.mono(End::Target).contains(
                target,
            )),
    {
        lists::holds(&self.mono_sources, source) || lists::holds(&self.mono_targets, target)
    }

    /// Whether one output port should feed one input port.
    ///
    /// Normally same channel to same channel, with a mono source feeding
    /// every input. If either end of the route is folded, every output feeds
    /// every input, which is the fold itself.
    pub fn pairs(&self, source: u32, target: u32, out: &Port, input: &Port) -> (r: bool)
        ensures
            r == feeds(
                self.mono(End::Source).contains(source) || self.mono(End::Target).contains(target),
                *out,
                *input,
            ),
    {
        self.folded(source, target) || text::same(input.channel.as_str(), out.channel.as_str())
            || text::same(out.channel.as_str(), "MONO")
    }

    /// Pair up the source's outputs with the target's inputs by channel.
    pub fn connect(&self, route: Route) -> (joins: Vec<Join>)
        ensures
            joins@ == self.joins(route),
    {
        let outs = self.pair_of(route.source, PortDirection::Out, route.tap.source_pair);
        let ins = self.pair_of(route.target, PortDirection::In, route.tap.target_pair);
        let ghost all_outs = these(outs@);
        let ghost all_ins = these(ins@);
        let ghost folded = self.is_folded(route);
        let mut joins: Vec<Join> = Vec::new();
        if route.tap != Tap::default() {
            let mut i: usize = 0;
            while i < outs.len() && i < ins.len()
                invariant
                    all_outs == these(outs@),
                    all_ins == these(ins@),
                    i <= outs@.len(),
                    i <= ins@.len(),
                    joins@ == zipped(all_outs, all_ins).take(i as int),
                decreases outs@.len() - i,
            {
                let join = join_of(outs[i], ins[i]);
                joins.push(join);
                proof {
                    assert(all_outs[i as int] == *outs@[i as int]);
                    assert(all_ins[i as int] == *ins@[i as int]);
                    assert(zipped(all_outs, all_ins).take(i + 1) =~= zipped(
                        all_outs,
                        all_ins,
                    ).take(i as int).push(join));
                }
                i = i + 1;
            }
            proof {
                assert(zipped(all_outs, all_ins).take(i as int) =~= zipped(all_outs, all_ins));
            }
            return joins;
        }
        for o in 0..outs.len()
            invariant
                all_outs == these(outs@),
                all_ins == these(ins@),
                folded == self.is_folded(route),
                joins@ == fans(folded, all_outs.take(o as int), all_ins),
        {
            let out = outs[o];
            let ghost so_far = joins@;
            let ghost keep = |i: Port| feeds(folded, *out, i);
            let ghost to = |i: Port| joined(*out, i);
            proof {
                lists::filter_none(all_ins, keep);
                assert(all_ins.take(0).filter(keep).map_values(to) =~= Seq::empty());
                assert(so_far + Seq::<Join>::empty() =~= so_far);
            }
            for i in 0..ins.len()
                invariant
                    all_ins == these(ins@),
                    folded == self.is_folded(route),
                    keep == (|i: Port| feeds(folded, *out, i)),
                    to == (|i: Port| joined(*out, i)),
                    joins@ == so_far + all_ins.take(i as int).filter(keep).map_values(to),
            {
                let input = ins[i];
                let ghost taken = all_ins.take(i as int).filter(keep);
                if self.pairs(route.source, route.target, out, input) {
                    joins.push(join_of(out, input));
                    proof {
                        assert(taken.push(*input).map_values(to) =~= taken.map_values(to).push(
                            joined(*out, *input),
                        ));
                        assert(so_far + taken.map_values(to).push(joined(*out, *input)) =~= (so_far
                            + taken.map_values(to)).push(joined(*out, *input)));
                    }
                }
                proof {
                    assert(all_ins[i as int] == *input);
                    lists::filter_step(all_ins, i as int, keep);
                }
            }
            proof {
                assert(all_ins.take(all_ins.len() as int) =~= all_ins);
                assert(all_outs.take(o + 1).drop_last() =~= all_outs.take(o as int));
                assert(all_outs.take(o + 1).last() == *out);
            }
        }
        proof {
            assert(all_outs.take(all_outs.len() as int) =~= all_outs);
        }
        joins
    }

    /// How many channel pairings are possible for a route right now.
    pub fn pair_count(&self, route: Route) -> (n: usize)
        ensures
            n == self.joins(route).len(),
    {
        self.connect(route).len()
    }

    fn wanted(&self, route: Route) -> (at: Option<usize>)
        ensures
            match at {
                Some(i) => i < self.desired@.len() && self.desired@[i as int] == route,
                None => !self.desired@.contains(route),
            },
    {
        for i in 0..self.desired.len()
            invariant
                forall|j: int| 0 <= j < i ==> #[trigger] self.desired@[j] != route,
        {
            if self.desired[i] == route {
                return Some(i);
            }
        }
        None
    }

    /// Turn a route on or off. Idempotent: asking for a route that already
    /// exists does nothing rather than stacking duplicate links.
    ///
    /// What is returned is what has to be joined for it. Nothing at all
    /// where there is nothing to do, and an empty list where the route has
    /// to wait for its ports.
    pub fn set_route(&mut self, route: Route, enabled: bool) -> (joins: Option<Vec<Join>>)
        requires
            old(self).wf(),
        ensures
            final(self).wf(),
            old(self).has_turned(final(self), route, enabled),
            joins is Some == (enabled && !old(self).links().contains_key(route)),
            joins matches Some(list) ==> list@ == old(self).joins(route),
    {
        let ghost before = self.desired@;
        let at = self.wanted(route);
        if !enabled {
            let ghost keep = other_than(route);
            let _ = self.routes.remove(&route);
            match at {
                Some(i) => {
                    self.desired.remove(i);
                    proof {
                        lists::all_but_one(before, i as int, keep);
                    }
                },
                None => {
                    proof {
                        assert forall|j: int| 0 <= j < before.len() implies keep(
                            #[trigger] before[j],
                        ) by {
                            assert(before.contains(before[j]));
                        }
                        lists::all_kept(before, keep);
                    }
                },
            }
            proof {
                lists::filter_no_duplicates(before, keep);
                assert forall|r: Route| #[trigger] self.links().contains_key(r) implies self.desired().contains(
                    r,
                ) && self.links()[r]@.len() > 0 by {
                    assert(old(self).links().contains_key(r));
                    lists::filter_contains(before, keep, r);
                }
            }
            return None;
        }
        if at.is_none() {
            self.desired.push(route);
            proof {
                assert forall|r: Route| before.contains(r) implies self.desired@.contains(r) by {
                    let k = before.index_of(r);
                    assert(self.desired@[k] == r);
                }
                assert forall|r: Route| #[trigger] self.links().contains_key(r) implies self.desired().contains(
                    r,
                ) && self.links()[r]@.len() > 0 by {
                    assert(old(self).links().contains_key(r));
                }
            }
        }
        proof {
            assert(self.joins(route) == old(self).joins(route));
        }
        if self.routes.contains(&route) {
            return None;
        }
        Some(self.connect(route))
    }

    /// Hand over the links that were made for a route.
    ///
    /// A route that got none stays without, to be tried again, and links for
    /// a route that is no longer wanted are let go.
    pub fn install(&mut self, route: Route, links: Vec<L>)
        requires
            old(self).wf(),
        ensures
            final(self).wf(),
            final(self).same_wishes(old(self)),
            final(self).links() == (if links@.len() > 0 && old(self).desired().contains(route) {
                old(self).links().insert(route, links)
            } else {
                old(self).links()
            }),
    {
        if links.len() > 0 && self.wanted(route).is_some() {
            self.routes.insert(route, links);
            proof {
                assert forall|r: Route| #[trigger] self.links().contains_key(r) implies self.desired().contains(
                    r,
                ) && self.links()[r]@.len() > 0 by {
                    if r != route {
                        assert(old(self).links().contains_key(r));
                    }
                }
            }
        }
    }

    /// Let go of the links of some routes and say what they need joined.
    fn rebuild(&mut self, routes: Vec<Route>) -> (plans: Vec<Plan>)
        requires
            old(self).wf(),
        ensures
            final(self).wf(),
            old(self).has_let_go(final(self), routes@),
            are_plans(plans@, routes@, |r: Route| old(self).joins(r)),
    {
        let mut plans: Vec<Plan> = Vec::new();
        let ghost wish = |r: Route| old(self).joins(r);
        proof {
            assert(self.links() =~= old(self).links().remove_keys(routes@.take(0).to_set()));
        }
        for i in 0..routes.len()
            invariant
                self.wf(),
                self.same_wishes(old(self)),
                wish == (|r: Route| old(self).joins(r)),
                self.links() == old(self).links().remove_keys(routes@.take(i as int).to_set()),
                are_plans(plans@, routes@.take(i as int), wish),
        {
            let route = routes[i];
            let ghost links = self.links();
            let _ = self.routes.remove(&route);
            proof {
                assert forall|r: Route| #[trigger] self.links().contains_key(r) implies self.desired().contains(
                    r,
                ) && self.links()[r]@.len() > 0 by {
                    assert(links.contains_key(r));
                }
                let more = routes@.take(i + 1);
                assert(more =~= routes@.take(i as int).push(route));
                assert forall|r: Route| more.to_set().contains(r) == (r == route || routes@.take(
                    i as int,
                ).to_set().contains(r)) by {
                    if r == route {
                        assert(more[i as int] == r);
                    } else if more.contains(r) {
                        let k = more.index_of(r);
                        assert(routes@.take(i as int)[k] == r);
                    } else if routes@.take(i as int).contains(r) {
                        let k = routes@.take(i as int).index_of(r);
                        assert(more[k] == r);
                    }
                }
                assert(self.links() =~= old(self).links().remove_keys(more.to_set()));
                assert(self.joins(route) == old(self).joins(route));
            }
            let joins = self.connect(route);
            plans.push(Plan { route, joins });
        }
        proof {
            assert(routes@.take(routes@.len() as int) =~= routes@);
        }
        plans
    }

    /// Bring every wanted route up to date with the ports known right now.
    ///
    /// Called as each port appears. A node's ports arrive one at a time, so a
    /// route built on the first of them would be half a stereo pair; whenever
    /// more channels could now be joined than the route currently has, its
    /// links are let go and it is to be rebuilt as the plan says.
    pub fn retry_pending(&mut self) -> (plans: Vec<Plan>)
        requires
            old(self).wf(),
        ensures
            final(self).wf(),
            old(self).has_let_go(final(self), old(self).stale()),
            are_plans(plans@, old(self).stale(), |r: Route| old(self).joins(r)),
    {
        let mut stale: Vec<Route> = Vec::new();
        let ghost keep = |r: Route| self.is_stale(r);
        proof {
            lists::filter_none(self.desired@, keep);
        }
        for i in 0..self.desired.len()
            invariant
                self.wf(),
                keep == (|r: Route| self.is_stale(r)),
                stale@ == self.desired@.take(i as int).filter(keep),
        {
            let route = self.desired[i];
            let have = match self.routes.get(&route) {
                Some(links) => links.len(),
                None => 0,
            };
            if self.pair_count(route) > have {
                stale.push(route);
            }
            proof {
                lists::filter_step(self.desired@, i as int, keep);
            }
        }
        proof {
            assert(self.desired@.take(self.desired@.len() as int) =~= self.desired@);
        }
        self.rebuild(stale)
    }

    /// The wanted routes that are stale, in the order they were asked for.
    pub open spec fn stale(&self) -> Seq<Route> {
        self.desired().filter(|r: Route| self.is_stale(r))
    }

    /// Fold a node down to mono, or stop. Rebuilds every route touching it at
    /// the given end, since the fold is in how those links are wired.
    pub fn set_mono(&mut self, node: u32, end: End, mono: bool) -> (plans: Vec<Plan>)
        requires
            old(self).wf(),
        ensures
            final(self).wf(),
            old(self).has_folded(final(self), node, end, mono),
            are_plans(
                plans@,
                old(self).affected(node, end, mono),
                |r: Route| final(self).joins(r),
            ),
    {
        let changed = match end {
            End::Source => lists::set_member(&mut self.mono_sources, node, mono),
            End::Target => lists::set_member(&mut self.mono_targets, node, mono),
        };
        if !changed {
            proof {
                assert(self.links().remove_keys(Seq::<Route>::empty().to_set()) =~= self.links());
            }
            return Vec::new();
        }
        let ghost middle = *self;
        let mut affected: Vec<Route> = Vec::new();
        let ghost keep = |r: Route| r.has_at(end, node);
        proof {
            lists::filter_none(self.desired@, keep);
        }
        for i in 0..self.desired.len()
            invariant
                keep == (|r: Route| r.has_at(end, node)),
                affected@ == self.desired@.take(i as int).filter(keep),
        {
            let route = self.desired[i];
            let touched = match end {
                End::Source => route.source == node,
                End::Target => route.target == node,
            };
            if touched {
                affected.push(route);
            }
            proof {
                lists::filter_step(self.desired@, i as int, keep);
            }
        }
        proof {
            assert(self.desired@.take(self.desired@.len() as int) =~= self.desired@);
        }
        let plans = self.rebuild(affected);
        proof {
            assert forall|r: Route| self.joins(r) == middle.joins(r) by {}
            assert forall|i: int| 0 <= i < plans@.len() implies (#[trigger] plans@[i]).joins@
                == self.joins(plans@[i].route) by {}
        }
        plans
    }

    /// How many routes have links.
    pub fn route_count(&self) -> (n: usize)
        requires
            self.wf(),
        ensures
            self.links().dom().finite(),
            n == self.links().dom().len(),
    {
        proof {
            self.routes.keys_are_counted_once();
        }
        self.routes.len()
    }

    /// Drop any route touching a node that has gone away. Without this the
    /// stale links linger until the route is toggled again.
    pub fn forget_node(&mut self, node_id: u32)
        requires
            old(self).wf(),
        ensures
            final(self).wf(),
            final(self).ports() == old(self).ports(),
            old(self).has_forgotten(final(self), node_id),
    {
        let ghost keep = |r: Route| !r.touches(node_id);
        let mut desired: Vec<Route> = Vec::new();
        proof {
            lists::filter_none(self.desired@, keep);
        }
        for i in 0..self.desired.len()
            invariant
                keep == (|r: Route| !r.touches(node_id)),
                desired@ == self.desired@.take(i as int).filter(keep),
        {
            let route = self.desired[i];
            if route.source != node_id && route.target != node_id {
                desired.push(route);
            }
            proof {
                lists::filter_step(self.desired@, i as int, keep);
            }
        }
        proof {
            assert(self.desired@.take(self.desired@.len() as int) =~= self.desired@);
            lists::filter_no_duplicates(self.desired@, keep);
        }
        let mut i: usize = 0;
        while i < self.routes.len()
            invariant
                self.routes.wf(),
                self.ports == old(self).ports,
                self.desired == old(self).desired,
                self.mono_sources == old(self).mono_sources,
                self.mono_targets == old(self).mono_targets,
                i <= self.routes.entries().len(),
                forall|j: int|
                    0 <= j < i ==> !(#[trigger] self.routes.keys()[j]).touches(node_id),
                forall|r: Route|
                    self.routes@.contains_key(r) ==> #[trigger] old(self).routes@.contains_key(r)
                        && self.routes@[r] == old(self).routes@[r],
                forall|r: Route| #[trigger]
                    old(self).routes@.contains_key(r) && !r.touches(node_id)
                        ==> self.routes@.contains_key(r),
            decreases self.routes.entries().len() - i,
        {
            let route = self.routes.entry(i).0;
            let ghost before = self.routes;
            if route.source == node_id || route.target == node_id {
                let _ = self.routes.remove_at(i);
                proof {
                    assert(before.keys()[i as int] == route);
                }
            } else {
                i = i + 1;
            }
        }
        self.desired = desired;
        proof {
            assert forall|r: Route| #[trigger] self.links().contains_key(r) == (old(
                self,
            ).links().contains_key(r) && !r.touches(node_id)) by {
                if self.links().contains_key(r) {
                    assert(self.routes.keys().contains(r));
                    let k = self.routes.keys().index_of(r);
                    assert(self.routes.keys()[k] == r);
                    assert(old(self).routes@.contains_key(r));
                }
            }
            assert forall|r: Route| #[trigger] self.links().contains_key(r) implies self.desired().contains(
                r,
            ) && self.links()[r]@.len() > 0 by {
                assert(old(self).links().contains_key(r));
                lists::filter_contains(old(self).desired@, keep, r);
            }
        }
    }
}

fn join_of(out: &Port, input: &Port) -> (join: Join)
    ensures
        join == joined(*out, *input),
{
    Join {
        output_node: out.node_id,
        output_port: out.id,
        input_node: input.node_id,
        input_port: input.id,
    }
}

/// How a link is asked for.
pub open spec fn link_properties(join: Join) -> Seq<(Seq<char>, Seq<char>)> {
    seq![
        ("link.output.node"@, text::decimal(join.output_node as nat)),
        ("link.output.port"@, text::decimal(join.output_port as nat)),
        ("link.input.node"@, text::decimal(join.input_node as nat)),
        ("link.input.port"@, text::decimal(join.input_port as nat)),
        ("object.linger"@, "0"@),
    ]
}

impl Join {
    /// What the link is to be made with. It goes when its owner lets go.
    pub fn properties(&self) -> (list: Vec<(String, String)>)
        ensures
            props::pairs(list@) == link_properties(*self),
    {
        let mut list = props::none();
        props::put(&mut list, "link.output.node", text::number(self.output_node as u64).as_str());
        props::put(&mut list, "link.output.port", text::number(self.output_port as u64).as_str());
        props::put(&mut list, "link.input.node", text::number(self.input_node as u64).as_str());
        props::put(&mut list, "link.input.port", text::number(self.input_port as u64).as_str());
        props::put(&mut list, "object.linger", "0");
        proof {
            assert(props::pairs(list@) =~= link_properties(*self));
        }
        list
    }
}

// ---------------------------------------------------------------------
// Laws

/// Turning a route on or off twice is doing it once.
pub proof fn asking_twice_is_asking_once(desired: Seq<Route>, route: Route, enabled: bool)
    ensures
        wishes_after(wishes_after(desired, route, enabled), route, enabled) == wishes_after(
            desired,
            route,
            enabled,
        ),
{
    let once = wishes_after(desired, route, enabled);
    if enabled {
        if !desired.contains(route) {
            assert(once[desired.len() as int] == route);
        }
    } else {
        let keep = other_than(route);
        assert forall|j: int| 0 <= j < once.len() implies keep(#[trigger] once[j]) by {
            assert(once.contains(once[j]));
            lists::filter_contains(desired, keep, once[j]);
        }
        lists::all_kept(once, keep);
    }
}

/// Turning a new route on and off again leaves what was wanted before.
pub proof fn turning_off_undoes_turning_on(desired: Seq<Route>, route: Route)
    requires
        !desired.contains(route),
    ensures
        wishes_after(wishes_after(desired, route, true), route, false) == desired,
{
    let keep = other_than(route);
    let on = desired.push(route);
    assert(on[desired.len() as int] == route);
    assert(on.contains(route));
    assert forall|j: int| 0 <= j < on.len() && j != desired.len() implies keep(
        #[trigger] on[j],
    ) by {
        assert(desired.contains(desired[j]));
    }
    lists::all_but_one(on, desired.len() as int, keep);
    assert(on.remove(desired.len() as int) =~= desired);
}

/// A folded route joins every output to every input.
pub proof fn a_fold_joins_everything(outs: Seq<Port>, ins: Seq<Port>)
    ensures
        fans(true, outs, ins).len() == outs.len() * ins.len(),
        forall|o: int, i: int|
            #![trigger outs[o], ins[i]]
            0 <= o < outs.len() && 0 <= i < ins.len() ==> fans(true, outs, ins).contains(
                joined(outs[o], ins[i]),
            ),
{
    a_fold_joins_as_many(outs, ins);
    assert forall|o: int, i: int|
        #![trigger outs[o], ins[i]]
        0 <= o < outs.len() && 0 <= i < ins.len() implies fans(true, outs, ins).contains(
        joined(outs[o], ins[i]),
    ) by {
        what_feeds_is_joined(true, outs, ins, outs[o], ins[i]);
    }
}

/// A fold makes a link for every output and every input.
proof fn a_fold_joins_as_many(outs: Seq<Port>, ins: Seq<Port>)
    ensures
        fans(true, outs, ins).len() == outs.len() * ins.len(),
    decreases outs.len(),
{
    if outs.len() > 0 {
        let fewer = outs.drop_last();
        let last = outs.last();
        a_fold_joins_as_many(fewer, ins);
        lists::all_kept(ins, |i: Port| feeds(true, last, i));
        assert(fan(true, last, ins).len() == ins.len());
        assert(outs.len() * ins.len() == fewer.len() * ins.len() + ins.len()) by (nonlinear_arith)
            requires
                outs.len() == fewer.len() + 1,
        ;
    } else {
        assert(outs.len() * ins.len() == 0) by (nonlinear_arith)
            requires
                outs.len() == 0,
        ;
    }
}

/// Every join of a fan is from one of the outputs into an input it feeds.
proof fn fans_only_join_what_feeds(folded: bool, outs: Seq<Port>, ins: Seq<Port>, join: Join)
    requires
        fans(folded, outs, ins).contains(join),
    ensures
        exists|o: Port, i: Port|
            #![trigger outs.contains(o), ins.contains(i)]
            outs.contains(o) && ins.contains(i) && feeds(folded, o, i) && join == joined(o, i),
    decreases outs.len(),
{
    let all = fans(folded, outs, ins);
    let k = all.index_of(join);
    assert(outs.len() > 0);
    let fewer = outs.drop_last();
    let head = fans(folded, fewer, ins);
    if k < head.len() {
        assert(head[k] == join);
        fans_only_join_what_feeds(folded, fewer, ins, join);
        let (o, i) = choose|o: Port, i: Port|
            #![trigger fewer.contains(o), ins.contains(i)]
            fewer.contains(o) && ins.contains(i) && feeds(folded, o, i) && join == joined(o, i);
        let at = fewer.index_of(o);
        assert(outs[at] == o);
        assert(outs.contains(o) && ins.contains(i));
    } else {
        let out = outs.last();
        let keep = |i: Port| feeds(folded, out, i);
        let kept = ins.filter(keep);
        let i = kept[k - head.len()];
        assert(kept.contains(i));
        lists::filter_contains(ins, keep, i);
        assert(outs[outs.len() - 1] == out);
        assert(outs.contains(out) && ins.contains(i));
    }
}

proof fn paired_are_ports_of_the_node(
    ports: Seq<Port>,
    node: u32,
    direction: PortDirection,
    pair: u32,
    port: Port,
)
    requires
        paired(ports, node, direction, pair).contains(port),
    ensures
        ports.contains(port),
        faces(port, node, direction),
{
    let keep = |p: Port| faces(p, node, direction);
    let facing = ports.filter(keep);
    let ranks = channel_ranks(facing);
    let list = ports_facing(ports, node, direction);
    lists::filter_contains(list, |p: Port| in_pair(p, pair), port);
    let k = list.index_of(port);
    order::order_of_is_order(ranks, facing.len());
    let place = order::order_of(ranks, facing.len())[k];
    assert(list[k] == facing[place]);
    assert(facing.contains(port));
    lists::filter_contains(ports, keep, port);
}

/// Links run forward: out of a port of the source, into a port of the
/// target, and only between ports that are known.
pub proof fn links_run_from_source_to_target(
    ports: Seq<Port>,
    folded: bool,
    route: Route,
    join: Join,
)
    requires
        joins_for(ports, folded, route).contains(join),
    ensures
        exists|o: Port, i: Port|
            #![trigger ports.contains(o), ports.contains(i)]
            ports.contains(o) && ports.contains(i) && faces(o, route.source, PortDirection::Out)
                && faces(i, route.target, PortDirection::In) && join == joined(o, i),
{
    let outs = paired(ports, route.source, PortDirection::Out, route.tap.source_pair);
    let ins = paired(ports, route.target, PortDirection::In, route.tap.target_pair);
    let (o, i) = if route.tap != main_tap() {
        let all = zipped(outs, ins);
        let k = all.index_of(join);
        assert(outs[k] == outs[k] && ins[k] == ins[k]);
        assert(outs.contains(outs[k]) && ins.contains(ins[k]));
        (outs[k], ins[k])
    } else {
        fans_only_join_what_feeds(folded, outs, ins, join);
        choose|o: Port, i: Port|
            #![trigger outs.contains(o), ins.contains(i)]
            outs.contains(o) && ins.contains(i) && feeds(folded, o, i) && join == joined(o, i)
    };
    paired_are_ports_of_the_node(
        ports,
        route.source,
        PortDirection::Out,
        route.tap.source_pair,
        o,
    );
    paired_are_ports_of_the_node(ports, route.target, PortDirection::In, route.tap.target_pair, i);
}

/// Where nothing is folded, an ordinary route joins like to like: the same
/// channel, or a mono output into whatever there is.
pub proof fn channels_meet_their_own(ports: Seq<Port>, route: Route, join: Join)
    requires
        route.tap == main_tap(),
        joins_for(ports, false, route).contains(join),
    ensures
        exists|o: Port, i: Port|
            #![trigger ports.contains(o), ports.contains(i)]
            ports.contains(o) && ports.contains(i) && join == joined(o, i) && (i.channel@
                == o.channel@ || o.channel@ == "MONO"@),
{
    let outs = paired(ports, route.source, PortDirection::Out, 0);
    let ins = paired(ports, route.target, PortDirection::In, 0);
    fans_only_join_what_feeds(false, outs, ins, join);
    let (o, i) = choose|o: Port, i: Port|
        #![trigger outs.contains(o), ins.contains(i)]
        outs.contains(o) && ins.contains(i) && feeds(false, o, i) && join == joined(o, i);
    paired_are_ports_of_the_node(ports, route.source, PortDirection::Out, 0, o);
    paired_are_ports_of_the_node(ports, route.target, PortDirection::In, 0, i);
}

/// No port is in two pairs.
pub proof fn pairs_do_not_overlap(port: Port, a: u32, b: u32)
    requires
        in_pair(port, a),
        in_pair(port, b),
    ensures
        a == b,
{
}

/// A route that was given every link it needs is left alone by a retry.
pub proof fn a_complete_route_is_not_rebuilt<L>(
    before: Router<L>,
    after: Router<L>,
    route: Route,
    links: Vec<L>,
)
    requires
        links@.len() == before.joins(route).len(),
        after.same_wishes(&before),
        after.links() == before.links().insert(route, links),
    ensures
        !after.is_stale(route),
        !after.stale().contains(route),
{
    lists::filter_contains(after.desired(), |r: Route| after.is_stale(r), route);
}

/// Once a node is forgotten no wanted route touches it.
pub proof fn a_forgotten_node_is_not_wanted(desired: Seq<Route>, node: u32, route: Route)
    requires
        desired.filter(|r: Route| !r.touches(node)).contains(route),
    ensures
        !route.touches(node),
        desired.contains(route),
{
    lists::filter_contains(desired, |r: Route| !r.touches(node), route);
}

/// Whether a port of a node can carry a pair of a route: it faces the right
/// way and has a channel, and it is one of the pair's two places, or the
/// node has no more than one pair of ports in all.
pub open spec fn carries(
    ports: Seq<Port>,
    p: Port,
    node: u32,
    direction: PortDirection,
    pair: u32,
) -> bool {
    let own = |q: Port| q.node_id == node && q.direction == direction && q.channel@.len() > 0;
    &&& ports.contains(p)
    &&& own(p)
    &&& (pair == 0 && ports.filter(own).len() <= 2) || p.slot == 2 * pair || p.slot == 2 * pair + 1
}

/// The ports that a pair is made of are exactly those that can carry it, and
/// they are listed by channel.
pub proof fn a_pair_is_made_of_what_carries_it(
    ports: Seq<Port>,
    node: u32,
    direction: PortDirection,
    pair: u32,
    p: Port,
    i: int,
    j: int,
)
    ensures
        paired(ports, node, direction, pair).contains(p) == carries(
            ports,
            p,
            node,
            direction,
            pair,
        ),
        ({
            let list = paired(ports, node, direction, pair);
            0 <= i < j < list.len() ==> !text::before(list[j].channel@, list[i].channel@)
        }),
{
    let keep = |q: Port| faces(q, node, direction);
    let own = |q: Port| q.node_id == node && q.direction == direction && q.channel@.len() > 0;
    assert(keep =~= own);
    let facing = ports.filter(keep);
    let ranks = channel_ranks(facing);
    let list = ports_facing(ports, node, direction);
    lists::filter_contains(ports, keep, p);
    order::sorting_keeps_everything(facing, ranks, p);
    lists::filter_contains(list, |q: Port| in_pair(q, pair), p);
    order::order_of_is_order(ranks, facing.len());
    let places = order::order_of(ranks, facing.len());
    assert forall|x: int, y: int| 0 <= x < y < list.len() implies !text::before(
        (#[trigger] list[y]).channel@,
        (#[trigger] list[x]).channel@,
    ) by {
        assert(list[x] == facing[places[x]] && list[y] == facing[places[y]]);
        assert(order::belongs_before(ranks, places[x], places[y]));
        text::before_is_irreflexive(list[x].channel@);
        if text::before(list[y].channel@, list[x].channel@) && text::before(
            list[x].channel@,
            list[y].channel@,
        ) {
            text::before_is_transitive(list[x].channel@, list[y].channel@, list[x].channel@);
        }
    }
    filtered_stays_in_order(list, |q: Port| in_pair(q, pair));
}

/// Ports in the order of their channels stay in it where some are left out.
proof fn filtered_stays_in_order(list: Seq<Port>, keep: spec_fn(Port) -> bool)
    requires
        forall|x: int, y: int|
            0 <= x < y < list.len() ==> !text::before(
                (#[trigger] list[y]).channel@,
                (#[trigger] list[x]).channel@,
            ),
    ensures
        forall|x: int, y: int|
            0 <= x < y < list.filter(keep).len() ==> !text::before(
                (#[trigger] list.filter(keep)[y]).channel@,
                (#[trigger] list.filter(keep)[x]).channel@,
            ),
    decreases list.len(),
{
    reveal(Seq::filter);
    if list.len() > 0 {
        let shorter = list.drop_last();
        filtered_stays_in_order(shorter, keep);
        let left = shorter.filter(keep);
        if keep(list.last()) {
            assert(list.filter(keep) == left.push(list.last()));
            assert forall|x: int| 0 <= x < left.len() implies !text::before(
                list.last().channel@,
                (#[trigger] left[x]).channel@,
            ) by {
                lists::filter_contains(shorter, keep, left[x]);
                assert(left.contains(left[x]));
                let k = shorter.index_of(left[x]);
                assert(list[k] == left[x]);
            }
        }
    }
}

/// An ordinary route joins two ports exactly where one carries its source
/// and the other its target, and they are of one channel, or the output is
/// mono, or the route is folded.
pub proof fn an_ordinary_route_joins_exactly_these(
    ports: Seq<Port>,
    folded: bool,
    route: Route,
    o: Port,
    i: Port,
)
    requires
        distinct_ports(ports),
        ports.contains(o),
        ports.contains(i),
        route.tap.source_pair == 0,
        route.tap.target_pair == 0,
    ensures
        joins_for(ports, folded, route).contains(
            Join {
                output_node: o.node_id,
                output_port: o.id,
                input_node: i.node_id,
                input_port: i.id,
            },
        ) == (carries(ports, o, route.source, PortDirection::Out, 0) && carries(
            ports,
            i,
            route.target,
            PortDirection::In,
            0,
        ) && (folded || o.channel@ == i.channel@ || o.channel@ == "MONO"@)),
{
    let outs = paired(ports, route.source, PortDirection::Out, 0);
    let ins = paired(ports, route.target, PortDirection::In, 0);
    let join = joined(o, i);
    a_pair_is_made_of_what_carries_it(ports, route.source, PortDirection::Out, 0, o, 0, 0);
    a_pair_is_made_of_what_carries_it(ports, route.target, PortDirection::In, 0, i, 0, 0);
    if joins_for(ports, folded, route).contains(join) {
        fans_only_join_what_feeds(folded, outs, ins, join);
        let (a, b) = choose|a: Port, b: Port|
            #![trigger outs.contains(a), ins.contains(b)]
            outs.contains(a) && ins.contains(b) && feeds(folded, a, b) && join == joined(a, b);
        paired_are_ports_of_the_node(ports, route.source, PortDirection::Out, 0, a);
        paired_are_ports_of_the_node(ports, route.target, PortDirection::In, 0, b);
        assert(a == o) by {
            assert(ports[ports.index_of(a)].id == ports[ports.index_of(o)].id);
        }
        assert(b == i) by {
            assert(ports[ports.index_of(b)].id == ports[ports.index_of(i)].id);
        }
    }
    if outs.contains(o) && ins.contains(i) && feeds(folded, o, i) {
        what_feeds_is_joined(folded, outs, ins, o, i);
    }
}

/// What feeds a port is joined to it.
proof fn what_feeds_is_joined(
    folded: bool,
    outs: Seq<Port>,
    ins: Seq<Port>,
    o: Port,
    i: Port,
)
    requires
        outs.contains(o),
        ins.contains(i),
        feeds(folded, o, i),
    ensures
        fans(folded, outs, ins).contains(joined(o, i)),
    decreases outs.len(),
{
    let k = outs.index_of(o);
    let head = fans(folded, outs.drop_last(), ins);
    let tail = fan(folded, outs.last(), ins);
    if k < outs.len() - 1 {
        assert(outs.drop_last()[k] == o);
        what_feeds_is_joined(folded, outs.drop_last(), ins, o, i);
        let at = head.index_of(joined(o, i));
        assert((head + tail)[at] == joined(o, i));
    } else {
        let fed = ins.filter(|x: Port| feeds(folded, o, x));
        lists::filter_contains(ins, |x: Port| feeds(folded, o, x), i);
        let at = fed.index_of(i);
        assert(tail[at] == joined(o, i));
        assert((head + tail)[head.len() + at] == joined(o, i));
    }
}

/// A route that takes another pair than the first joins the ports of the two
/// pairs one to one, in the order of their channels, as far as both go.
pub proof fn a_tapped_route_joins_one_to_one(
    ports: Seq<Port>,
    folded: bool,
    route: Route,
    k: int,
)
    requires
        route.tap.source_pair != 0 || route.tap.target_pair != 0,
    ensures
        ({
            let outs = paired(ports, route.source, PortDirection::Out, route.tap.source_pair);
            let ins = paired(ports, route.target, PortDirection::In, route.tap.target_pair);
            let joins = joins_for(ports, folded, route);
            &&& joins.len() <= outs.len() && joins.len() <= ins.len()
            &&& joins.len() == outs.len() || joins.len() == ins.len()
            &&& 0 <= k < joins.len() ==> joins[k] == (Join {
                output_node: route.source,
                output_port: outs[k].id,
                input_node: route.target,
                input_port: ins[k].id,
            })
        }),
{
    let outs = paired(ports, route.source, PortDirection::Out, route.tap.source_pair);
    let ins = paired(ports, route.target, PortDirection::In, route.tap.target_pair);
    if 0 <= k < joins_for(ports, folded, route).len() {
        assert(outs.contains(outs[k]) && ins.contains(ins[k]));
        paired_are_ports_of_the_node(
            ports,
            route.source,
            PortDirection::Out,
            route.tap.source_pair,
            outs[k],
        );
        paired_are_ports_of_the_node(
            ports,
            route.target,
            PortDirection::In,
            route.tap.target_pair,
            ins[k],
        );
    }
}

/// A route is folded by its source or by its target, whichever it is that
/// was asked to be, and by nothing else.
pub proof fn either_end_folds_a_route<L>(router: Router<L>, source: u32, target: u32, tap: Tap)
    ensures
        ({
            let route = Route { source, target, tap };
            &&& router.mono(End::Source).contains(source) ==> router.is_folded(route)
            &&& router.mono(End::Target).contains(target) ==> router.is_folded(route)
            &&& router.is_folded(route) && !router.mono(End::Source).contains(source)
                ==> router.mono(End::Target).contains(target)
            &&& router.joins(route) == joins_for(router.ports(), router.is_folded(route), route)
        }),
{
}

/// Folding a node at an end, or unfolding it, is noted for that node and
/// that end alone. Where it changes anything, every wanted route that has
/// the node at that end loses its links and is planned again, as it is to be
/// from then on; no other route is touched.
pub proof fn folding_rebuilds_every_route_at_that_end<L>(
    before: Router<L>,
    after: Router<L>,
    node: u32,
    end: End,
    mono: bool,
    plans: Seq<Plan>,
    route: Route,
)
    requires
        before.wf(),
        before.has_folded(&after, node, end, mono),
        are_plans(plans, before.affected(node, end, mono), |r: Route| after.joins(r)),
    ensures
        ({
            let changed = before.mono(end).contains(node) != mono;
            let there = match end {
                End::Source => route.source == node,
                End::Target => route.target == node,
            };
            &&& (exists|k: int| 0 <= k < plans.len() && (#[trigger] plans[k]).route == route) == (
            changed && there && before.desired().contains(route))
            &&& changed && there ==> !after.links().contains_key(route)
            &&& !changed || !there ==> after.links().contains_key(route)
                == before.links().contains_key(route)
            &&& after.links().contains_key(route) ==> after.links()[route] == before.links()[route]
            &&& after.mono(end).contains(node) == mono
            &&& forall|e: End, n: u32|
                e != end || n != node ==> (#[trigger] after.mono(e).contains(n)) == before.mono(
                    e,
                ).contains(n)
            &&& after.desired() == before.desired()
            &&& after.ports() == before.ports()
            &&& forall|k: int|
                0 <= k < plans.len() ==> (#[trigger] plans[k]).joins@ == after.joins(plans[k].route)
        }),
{
    let changed = before.mono(end).contains(node) != mono;
    let keep = |r: Route| r.has_at(end, node);
    let affected = before.affected(node, end, mono);
    lists::filter_contains(before.desired(), keep, route);
    assert(affected.contains(route) == (changed && before.desired().contains(route)
        && route.has_at(end, node)));
    if affected.contains(route) {
        let k = affected.index_of(route);
        assert(plans[k].route == route);
    }
    if exists|k: int| 0 <= k < plans.len() && (#[trigger] plans[k]).route == route {
        let k = choose|k: int| 0 <= k < plans.len() && (#[trigger] plans[k]).route == route;
        assert(affected[k] == route);
    }
    assert(affected.to_set().contains(route) == affected.contains(route));
}

/// Folding a node and unfolding it again joins every route as it was joined
/// before.
pub proof fn unfolding_undoes_folding<L>(
    before: Router<L>,
    folded: Router<L>,
    after: Router<L>,
    node: u32,
    end: End,
    route: Route,
)
    requires
        !before.mono(end).contains(node),
        before.has_folded(&folded, node, end, true),
        folded.has_folded(&after, node, end, false),
    ensures
        after.mono(End::Source) == before.mono(End::Source),
        after.mono(End::Target) == before.mono(End::Target),
        after.joins(route) == before.joins(route),
        route.source == node && end == End::Source ==> folded.is_folded(route),
        route.target == node && end == End::Target ==> folded.is_folded(route),
{
    assert(after.mono(End::Source) =~= before.mono(End::Source));
    assert(after.mono(End::Target) =~= before.mono(End::Target));
}

/// Asking for a route, or for none, settles that route and no other: it is
/// wanted from then on exactly where it was asked for, and loses its links
/// exactly where it was not.
pub proof fn asking_settles_one_route<L>(
    before: Router<L>,
    after: Router<L>,
    route: Route,
    enabled: bool,
    other: Route,
)
    requires
        before.has_turned(&after, route, enabled),
    ensures
        after.desired().contains(route) == enabled,
        other != route ==> after.desired().contains(other) == before.desired().contains(other),
        after.links().contains_key(other) == (before.links().contains_key(other) && (enabled
            || other != route)),
        after.links().contains_key(other) ==> after.links()[other] == before.links()[other],
        after.ports() == before.ports(),
        after.mono(End::Source) == before.mono(End::Source),
        after.mono(End::Target) == before.mono(End::Target),
{
    if !enabled {
        lists::filter_contains(before.desired(), other_than(route), route);
        lists::filter_contains(before.desired(), other_than(route), other);
    } else if !before.desired().contains(route) {
        let list = before.desired().push(route);
        assert(list[list.len() - 1] == route);
        if before.desired().contains(other) {
            let k = before.desired().index_of(other);
            assert(list[k] == other);
        }
    }
}

/// A retry plans exactly the wanted routes that have fewer links than they
/// could have, lets their links go, and leaves every other as it is.
pub proof fn a_retry_plans_what_is_incomplete<L>(
    before: Router<L>,
    after: Router<L>,
    plans: Seq<Plan>,
    route: Route,
)
    requires
        before.has_let_go(&after, before.stale()),
        are_plans(plans, before.stale(), |r: Route| before.joins(r)),
    ensures
        ({
            let links = if before.links().contains_key(route) {
                before.links()[route]@.len()
            } else {
                0
            };
            let due = before.desired().contains(route) && links < joins_for(
                before.ports(),
                before.is_folded(route),
                route,
            ).len();
            &&& (exists|k: int| 0 <= k < plans.len() && (#[trigger] plans[k]).route == route) == due
            &&& after.links().contains_key(route) == (before.links().contains_key(route) && !due)
            &&& after.links().contains_key(route) ==> after.links()[route] == before.links()[route]
            &&& after.desired() == before.desired()
            &&& after.ports() == before.ports()
            &&& forall|k: int|
                0 <= k < plans.len() ==> (#[trigger] plans[k]).joins@ == before.joins(
                    plans[k].route,
                )
        }),
{
    let stale = before.stale();
    lists::filter_contains(before.desired(), |r: Route| before.is_stale(r), route);
    if stale.contains(route) {
        let k = stale.index_of(route);
        assert(plans[k].route == route);
    }
    if exists|k: int| 0 <= k < plans.len() && (#[trigger] plans[k]).route == route {
        let k = choose|k: int| 0 <= k < plans.len() && (#[trigger] plans[k]).route == route;
        assert(stale[k] == route);
    }
    assert(stale.to_set().contains(route) == stale.contains(route));
}

/// A node that has gone takes every route to it and from it along, wishes
/// and links alike, and no other.
pub proof fn a_node_takes_its_routes_along<L>(
    before: Router<L>,
    after: Router<L>,
    node: u32,
    route: Route,
)
    requires
        before.has_forgotten(&after, node),
    ensures
        after.desired().contains(route) == (before.desired().contains(route) && route.source
            != node && route.target != node),
        after.links().contains_key(route) == (before.links().contains_key(route) && route.source
            != node && route.target != node),
        after.links().contains_key(route) ==> after.links()[route] == before.links()[route],
{
    lists::filter_contains(before.desired(), |r: Route| !r.touches(node), route);
}

/// A port that is noted is there afterwards, in place of any that had its
/// number, and no other port comes or goes.
pub proof fn noting_a_port_replaces_its_number(ports: Seq<Port>, port: Port, other: Port)
    ensures
        with_port(ports, port).contains(port),
        other.id != port.id ==> with_port(ports, port).contains(other) == ports.contains(other),
        other.id == port.id && other != port ==> !with_port(ports, port).contains(other)
            || !has_port(ports, port.id),
        has_port(ports, port.id) ==> with_port(ports, port).len() == ports.len(),
        !has_port(ports, port.id) ==> with_port(ports, port).len() == ports.len() + 1,
{
    let after = with_port(ports, port);
    if has_port(ports, port.id) {
        let i = choose|i: int| 0 <= i < ports.len() && (#[trigger] ports[i]).id == port.id;
        assert(after[i] == port);
        if ports.contains(other) && other.id != port.id {
            let k = ports.index_of(other);
            assert(after[k] == other);
        }
        if after.contains(other) {
            let k = after.index_of(other);
            assert(ports[k].id == port.id ==> after[k] == port);
            assert(ports[k].id != port.id ==> after[k] == ports[k]);
        }
    } else {
        assert(after[after.len() - 1] == port);
        if ports.contains(other) {
            let k = ports.index_of(other);
            assert(after[k] == other);
        }
        if after.contains(other) && other != port {
            let k = after.index_of(other);
            assert(ports[k] == other);
        }
    }
}

/// A link is made with the four numbers it joins, and goes when we go.
pub proof fn a_link_names_what_it_joins(join: Join)
    ensures
        props::value_of(link_properties(join), "link.output.node"@) == Some(
            text::decimal(join.output_node as nat),
        ),
        props::value_of(link_properties(join), "link.output.port"@) == Some(
            text::decimal(join.output_port as nat),
        ),
        props::value_of(link_properties(join), "link.input.node"@) == Some(
            text::decimal(join.input_node as nat),
        ),
        props::value_of(link_properties(join), "link.input.port"@) == Some(
            text::decimal(join.input_port as nat),
        ),
        props::value_of(link_properties(join), "object.linger"@) == Some("0"@),
{
    let list = link_properties(join);
    reveal_strlit("link.output.node");
    reveal_strlit("link.output.port");
    reveal_strlit("link.input.node");
    reveal_strlit("link.input.port");
    reveal_strlit("object.linger");
    assert("link.output.node"@[12] == 'n' && "link.output.port"@[12] == 'p');
    assert("link.input.node"@[11] == 'n' && "link.input.port"@[11] == 'p');
    assert("link.input.node"@.len() == 15 && "link.output.node"@.len() == 16);
    assert("link.input.port"@.len() == 15 && "link.output.port"@.len() == 16);
    assert("object.linger"@.len() == 13);
    props::the_first_of_a_name_counts(list, "link.output.node"@);
    props::the_first_of_a_name_counts(list, "link.output.port"@);
    props::the_first_of_a_name_counts(list, "link.input.node"@);
    props::the_first_of_a_name_counts(list, "link.input.port"@);
    props::the_first_of_a_name_counts(list, "object.linger"@);
    assert(list[0].0 == "link.output.node"@ && list[1].0 == "link.output.port"@);
    assert(list[2].0 == "link.input.node"@ && list[3].0 == "link.input.port"@);
    assert(list[4].0 == "object.linger"@);
}

/// No two ports are joined twice.
pub proof fn nothing_is_joined_twice(ports: Seq<Port>, folded: bool, route: Route)
    requires
        distinct_ports(ports),
    ensures
        joins_for(ports, folded, route).no_duplicates(),
{
    let outs = paired(ports, route.source, PortDirection::Out, route.tap.source_pair);
    let ins = paired(ports, route.target, PortDirection::In, route.tap.target_pair);
    paired_are_apart(ports, route.source, PortDirection::Out, route.tap.source_pair);
    paired_are_apart(ports, route.target, PortDirection::In, route.tap.target_pair);
    if route.tap == main_tap() {
        fans_are_apart(folded, outs, ins);
    } else {
        let all = zipped(outs, ins);
        assert forall|x: int, y: int|
            0 <= x < all.len() && 0 <= y < all.len() && x != y implies all[x] != all[y] by {
            if x < y {
                assert(outs[x].id != outs[y].id);
            } else {
                assert(outs[y].id != outs[x].id);
            }
        }
    }
}

/// The ports of a pair are all different.
proof fn paired_are_apart(ports: Seq<Port>, node: u32, direction: PortDirection, pair: u32)
    requires
        distinct_ports(ports),
    ensures
        distinct_ports(paired(ports, node, direction, pair)),
{
    let keep = |p: Port| faces(p, node, direction);
    let id = |p: Port| p.id;
    assert forall|i: int, j: int| 0 <= i < j < ports.len() implies id(#[trigger] ports[i]) != id(
        #[trigger] ports[j],
    ) by {}
    lists::filter_keeps_apart(ports, keep, id);
    let facing = ports.filter(keep);
    let ranks = channel_ranks(facing);
    let list = ports_facing(ports, node, direction);
    let places = order::order_of(ranks, facing.len());
    order::order_of_is_order(ranks, facing.len());
    assert forall|i: int, j: int| 0 <= i < j < list.len() implies id(#[trigger] list[i]) != id(
        #[trigger] list[j],
    ) by {
        order::order_of_is_injective(ranks, facing.len(), i, j);
        assert(list[i] == facing[places[i]] && list[j] == facing[places[j]]);
        if places[i] < places[j] {
            assert(id(facing[places[i]]) != id(facing[places[j]]));
        } else {
            assert(id(facing[places[j]]) != id(facing[places[i]]));
        }
    }
    let within = |p: Port| in_pair(p, pair);
    lists::filter_keeps_apart(list, within, id);
    let chosen = list.filter(within);
    assert forall|i: int, j: int| 0 <= i < j < chosen.len() implies (#[trigger] chosen[i]).id != (
    #[trigger] chosen[j]).id by {
        assert(id(chosen[i]) != id(chosen[j]));
    }
    assert forall|i: int, j: int| 0 <= i < j < list.len() implies (#[trigger] list[i]).id != (
    #[trigger] list[j]).id by {
        assert(id(list[i]) != id(list[j]));
    }
}

/// Outputs that are all different, fanned over inputs that are, make links
/// that are.
proof fn fans_are_apart(folded: bool, outs: Seq<Port>, ins: Seq<Port>)
    requires
        distinct_ports(outs),
        distinct_ports(ins),
    ensures
        fans(folded, outs, ins).no_duplicates(),
    decreases outs.len(),
{
    if outs.len() > 0 {
        let less = outs.drop_last();
        assert(distinct_ports(less)) by {
            assert forall|i: int, j: int| 0 <= i < j < less.len() implies (#[trigger] less[i]).id
                != (#[trigger] less[j]).id by {
                assert(outs[i].id != outs[j].id);
            }
        }
        fans_are_apart(folded, less, ins);
        let head = fans(folded, less, ins);
        let out = outs.last();
        let keep = |i: Port| feeds(folded, out, i);
        let id = |p: Port| p.id;
        assert forall|i: int, j: int| 0 <= i < j < ins.len() implies id(#[trigger] ins[i]) != id(
            #[trigger] ins[j],
        ) by {}
        lists::filter_keeps_apart(ins, keep, id);
        let fed = ins.filter(keep);
        let tail = fan(folded, out, ins);
        let all = head + tail;
        assert forall|x: int, y: int|
            0 <= x < y < all.len() implies all[x] != all[y] by {
            if y < head.len() {
                assert(head[x] != head[y]);
            } else if x >= head.len() {
                let a = x - head.len();
                let b = y - head.len();
                assert(id(fed[a]) != id(fed[b]));
            } else {
                assert(head.contains(head[x]));
                fans_only_join_what_feeds(folded, less, ins, head[x]);
                let (o, i) = choose|o: Port, i: Port|
                    #![trigger less.contains(o), ins.contains(i)]
                    less.contains(o) && ins.contains(i) && feeds(folded, o, i) && head[x] == joined(
                        o,
                        i,
                    );
                let k = less.index_of(o);
                assert(outs[k].id != outs[outs.len() - 1].id);
            }
        }
    }
}

/// Two ports of two nodes are paired exactly where they are of one channel,
/// or the output is mono, or either node is folded at its end.
pub proof fn ports_pair_by_channel_or_fold<L>(
    router: Router<L>,
    source: u32,
    target: u32,
    out: Port,
    input: Port,
    folded: bool,
    paired: bool,
)
    requires
        call_ensures(Router::<L>::folded, (&router, source, target), folded),
        call_ensures(Router::<L>::pairs, (&router, source, target, &out, &input), paired),
    ensures
        folded == (router.mono(End::Source).contains(source) || router.mono(End::Target).contains(
            target,
        )),
        folded ==> paired,
        !folded ==> paired == (out.channel@ == input.channel@ || out.channel@ == "MONO"@),
{
}

} // verus!
