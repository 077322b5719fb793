//! The bookkeeping of one connection to `PipeWire`.
//!
//! `PipeWire`'s objects live on a thread of their own, which watches the
//! registry and applies commands. What it knows and what it decides is here;
//! what it then does to the graph is a list of [`Action`]s for that thread
//! to carry out, in order.

use vstd::prelude::*;

use crate::lists;
use crate::single::Single;
use crate::table::{self, Table};
use crate::text;

use super::Event;
use super::describe::Seen;
use super::eq;
use super::links::{self, End, Join, Plan, Port, Route, Router};
use super::meters::Target;
use super::nodes::{Command, Device, Stream};
use super::sinks;

verus! {

/// Something to be done to the graph, or said about it.
#[derive(Debug)]
pub enum Action {
    /// Bind a proxy to a node, so that its volume and its controls can be
    /// driven. `formats` says whether its format is to be reported.
    Bind { node: u32, formats: bool },
    /// Attach a meter, so that a node's level can be read.
    Meter(Target),
    /// Let go of the proxy, the meter and the listener of a node.
    Release(u32),
    /// Make a route's links and hand them back.
    Connect(Plan),
    /// Destroy something of ours in the registry.
    Destroy(u32),
    /// Let go of the proxies of our virtual sinks.
    LetGoOfSinks,
    /// Make virtual sinks.
    Create(Vec<sinks::Spec>),
    /// Stop every take in progress.
    StopTakes,
    /// Start a take: which node, by name, into which file.
    Take { name: String, path: String, rate: u32 },
    /// Send control values to a node.
    Controls { node: u32, controls: Vec<(String, Single)> },
    /// Set a node's channel volumes.
    Volume { node: u32, amplitude: Single, balance: (Single, Single) },
    /// Mute a node through its own property, leaving its volume alone.
    Mute { node: u32, muted: bool },
    /// Tell the mixer.
    Report(Event),
    /// Leave the loop: the server has gone away.
    Quit,
}

/// One of our own virtual devices, as the registry sees it.
#[derive(Debug, Clone)]
pub struct Owned {
    pub id: u32,
    /// What it was created as. A build that declared the buses differently
    /// leaves them behind, and adopting one of those would give a bus the
    /// desktop still files with the speakers.
    pub class: String,
}

/// Everything one connection has learned, with the links it made as `L`.
pub struct Session<L> {
    router: Router<L>,
    owned: Table<String, Owned>,
    bound: Vec<u32>,
    metered: Vec<u32>,
    /// Control writes for nodes that were not bound when they arrived.
    ///
    /// A filter chain that is not running yet has no proxy here. The write
    /// is held and retried on the next write, which is enough: the caller
    /// pushes controls repeatedly, so a chain that comes up gets its levels
    /// on the next pass rather than never.
    pending: Table<u32, Vec<(String, Single)>>,
    /// Whether the registry's first sweep has been reported.
    swept: bool,
}

/// The id of the core itself.
pub const CORE: u32 = 0;

/// `EPIPE`, which is what the server reports when it has gone away.
#[must_use]
pub fn libc_epipe() -> (n: i32)
    ensures
        n == 32,
{
    32
}

// ---------------------------------------------------------------------
// What is done

/// One link-making for each route, with what it needs joined.
pub open spec fn connects(
    actions: Seq<Action>,
    routes: Seq<Route>,
    joins: spec_fn(Route) -> Seq<Join>,
) -> bool {
    &&& actions.len() == routes.len()
    &&& forall|i: int|
        0 <= i < actions.len() ==> (#[trigger] actions[i] matches Action::Connect(p) && p.route
            == routes[i] && p.joins@ == joins(routes[i]))
}

/// What is done about a device that appears: it is bound, metered unless it
/// is an end of a chain of ours or has a meter, and reported.
pub open spec fn adoption(device: Device, metered: Set<u32>) -> Seq<Action> {
    let bind = seq![Action::Bind { node: device.id, formats: true }];
    let report = seq![Action::Report(Event::Added(device))];
    if eq::is_endpoint(device.name@) || metered.contains(device.id) {
        bind + report
    } else {
        bind + seq![
            Action::Meter(
                Target {
                    id: device.id,
                    name: device.name,
                    is_sink: device.class@ == "Audio/Sink"@,
                },
            ),
        ] + report
    }
}

/// What is done about an application's stream that appears: it is bound,
/// metered where its node has a name, and reported.
pub open spec fn stream_adoption(stream: Stream) -> Seq<Action> {
    let bind = seq![Action::Bind { node: stream.id, formats: false }];
    let report = seq![Action::Report(Event::StreamAdded(stream))];
    if stream.node_name@.len() == 0 {
        bind + report
    } else {
        bind + seq![
            Action::Meter(Target { id: stream.id, name: stream.node_name, is_sink: false }),
        ] + report
    }
}

/// Whether one of ours is filed under another class than it should be.
pub open spec fn is_misfiled(entry: (String, Owned)) -> bool {
    sinks::misfiled(entry.0@, entry.1.class@)
}

/// Ours, destroyed one by one.
pub open spec fn destroys(list: Seq<(String, Owned)>) -> Seq<Action> {
    list.map_values(|e: (String, Owned)| Action::Destroy(e.1.id))
}

/// The names of ours.
pub open spec fn names(list: Seq<(String, Owned)>) -> Seq<Seq<char>> {
    table::keys_of(list)
}

/// Held control writes, sent one by one.
pub open spec fn sends(list: Seq<(u32, Vec<(String, Single)>)>) -> Seq<Action> {
    list.map_values(
        |e: (u32, Vec<(String, Single)>)| Action::Controls { node: e.0, controls: e.1 },
    )
}

/// Takes, started one by one.
pub open spec fn started(takes: Seq<(String, String)>, rate: u32) -> Seq<Action> {
    takes.map_values(|t: (String, String)| Action::Take { name: t.0, path: t.1, rate })
}

impl<L> Default for Session<L> {
    fn default() -> (session: Self)
        ensures
            session.wf(),
            session.router().ports() == Seq::<Port>::empty(),
            session.router().desired() == Seq::<Route>::empty(),
            session.router().links() == Map::<Route, Vec<L>>::empty(),
            forall|end: End| session.router().mono(end) == Set::<u32>::empty(),
            session.owned() == Seq::<(String, Owned)>::empty(),
            session.bound() == Set::<u32>::empty(),
            session.metered() == Set::<u32>::empty(),
            session.pending() == Seq::<(u32, Vec<(String, Single)>)>::empty(),
            !session.swept(),
    {
        let session = Session {
            router: Router::default(),
            owned: Table::new(),
            bound: Vec::new(),
            metered: Vec::new(),
            pending: Table::new(),
            swept: false,
        };
        proof {
            assert(session.bound() =~= Set::<u32>::empty());
            assert(session.metered() =~= Set::<u32>::empty());
        }
        session
    }
}

impl<L> Session<L> {
    /// The ports and the routes.
    pub closed spec fn router(&self) -> Router<L> {
        self.router
    }

    /// Our virtual devices that the registry has, by name, in the order they
    /// appeared.
    pub closed spec fn owned(&self) -> Seq<(String, Owned)> {
        self.owned.entries()
    }

    /// The nodes that have a proxy.
    pub closed spec fn bound(&self) -> Set<u32> {
        self.bound@.to_set()
    }

    /// The nodes that have a meter.
    pub closed spec fn metered(&self) -> Set<u32> {
        self.metered@.to_set()
    }

    /// The control writes that are held, by node.
    pub closed spec fn pending(&self) -> Seq<(u32, Vec<(String, Single)>)> {
        self.pending.entries()
    }

    /// Whether the registry's first sweep has been reported.
    pub closed spec fn swept(&self) -> bool {
        self.swept
    }

    /// The lists behind the models hold nothing twice.
    pub closed spec fn inner_wf(&self) -> bool {
        &&& self.bound@.no_duplicates()
        &&& self.metered@.no_duplicates()
    }

    /// The router is in order, and neither a name nor a node is listed
    /// twice.
    pub open spec fn wf(&self) -> bool {
        &&& self.inner_wf()
        &&& self.router().wf()
        &&& table::keys_of(self.owned()).no_duplicates()
        &&& table::keys_of(self.pending()).no_duplicates()
    }

    /// Everything but the router is as it was.
    pub open spec fn same_nodes(&self, other: &Self) -> bool {
        &&& self.owned() == other.owned()
        &&& self.bound() == other.bound()
        &&& self.metered() == other.metered()
        &&& self.pending() == other.pending()
        &&& self.swept() == other.swept()
    }

    /// Everything but the list of ours is as it was.
    pub open spec fn same_but_owned(&self, other: &Self) -> bool {
        &&& self.router() == other.router()
        &&& self.bound() == other.bound()
        &&& self.metered() == other.metered()
        &&& self.pending() == other.pending()
        &&& self.swept() == other.swept()
    }

    /// Everything but the held writes is as it was.
    pub open spec fn same_but_pending(&self, other: &Self) -> bool {
        &&& self.router() == other.router()
        &&& self.owned() == other.owned()
        &&& self.bound() == other.bound()
        &&& self.metered() == other.metered()
        &&& self.swept() == other.swept()
    }

    /// Nothing changed.
    pub open spec fn unchanged(&self, other: &Self) -> bool {
        &&& self.router() == other.router()
        &&& self.same_nodes(other)
    }

    /// Note that a proxy was bound to a node.
    pub fn bind(&mut self, node: u32)
        requires
            old(self).wf(),
        ensures
            final(self).wf(),
            final(self).router() == old(self).router(),
            final(self).owned() == old(self).owned(),
            final(self).bound() == old(self).bound().insert(node),
            final(self).metered() == old(self).metered(),
            final(self).pending() == old(self).pending(),
            final(self).swept() == old(self).swept(),
    {
        let _ = lists::set_member(&mut self.bound, node, true);
    }

    /// Note that a meter was attached to a node.
    pub fn meter(&mut self, node: u32)
        requires
            old(self).wf(),
        ensures
            final(self).wf(),
            final(self).router() == old(self).router(),
            final(self).owned() == old(self).owned(),
            final(self).bound() == old(self).bound(),
            final(self).metered() == old(self).metered().insert(node),
            final(self).pending() == old(self).pending(),
            final(self).swept() == old(self).swept(),
    {
        let _ = lists::set_member(&mut self.metered, node, true);
    }

    /// Hand over the links that were made for a route.
    pub fn install(&mut self, route: Route, links: Vec<L>)
        requires
            old(self).wf(),
        ensures
            final(self).wf(),
            final(self).same_nodes(old(self)),
            final(self).router().same_wishes(&old(self).router()),
            final(self).router().links() == (if links@.len() > 0
                && old(self).router().desired().contains(route) {
                old(self).router().links().insert(route, links)
            } else {
                old(self).router().links()
            }),
    {
        self.router.install(route, links);
    }

    /// How many routes have links.
    pub fn route_count(&self) -> (n: usize)
        requires
            self.wf(),
        ensures
            self.router().links().dom().finite(),
            n == self.router().links().dom().len(),
    {
        self.router.route_count()
    }

    /// What follows from something that appeared in the registry.
    pub open spec fn has_seen(&self, after: &Self, seen: Seen, actions: Seq<Action>) -> bool {
        match seen {
            Seen::Device(device) => {
                &&& after.same_but_owned(self)
                &&& after.owned() == (if sinks::owns(device.name@) {
                    table::with_entry(
                        self.owned(),
                        device.name,
                        Owned { id: device.id, class: device.class },
                    )
                } else {
                    self.owned()
                })
                &&& actions == adoption(device, self.metered())
            },
            Seen::Stream(stream) => {
                &&& after.unchanged(self)
                &&& actions == stream_adoption(stream)
            },
            Seen::Link(link) => {
                &&& after.unchanged(self)
                &&& actions == seq![Action::Report(Event::LinkAdded(link))]
            },
            Seen::Port(port) => {
                &&& after.same_nodes(self)
                &&& exists|noted: Router<L>|
                    {
                        &&& #[trigger] self.router().has_noted(&noted, port)
                        &&& noted.has_let_go(&after.router(), noted.stale())
                        &&& connects(actions, noted.stale(), |r: Route| noted.joins(r))
                    }
            },
            Seen::Other => after.unchanged(self) && actions.len() == 0,
        }
    }

    /// Something appeared in the registry.
    pub fn appeared(&mut self, seen: Seen) -> (actions: Vec<Action>)
        requires
            old(self).wf(),
        ensures
            final(self).wf(),
            old(self).has_seen(final(self), seen, actions@),
    {
        match seen {
            Seen::Device(device) => self.adopt(device),
            Seen::Stream(stream) => adopt_stream(stream),
            Seen::Link(link) => {
                let mut actions: Vec<Action> = Vec::new();
                actions.push(Action::Report(Event::LinkAdded(link)));
                actions
            },
            Seen::Port(port) => {
                self.router.add_port(port);
                let ghost noted = self.router;
                let plans = self.router.retry_pending();
                proof {
                    assert(old(self).router().has_noted(&noted, port));
                }
                connect_all(plans)
            },
            Seen::Other => Vec::new(),
        }
    }

    /// Take control of a newly seen audio node: bind a proxy so its volume
    /// can be driven, and attach a meter so its level can be read.
    ///
    /// Both are per-node resources held until the node goes away.
    fn adopt(&mut self, device: Device) -> (actions: Vec<Action>)
        requires
            old(self).wf(),
        ensures
            final(self).wf(),
            old(self).has_seen(final(self), Seen::Device(device), actions@),
    {
        let ghost all = device;
        if sinks::is_ours(device.name.as_str()) {
            self.owned.insert(
                device.name.clone(),
                Owned { id: device.id, class: device.class.clone() },
            );
        }
        let mut actions: Vec<Action> = Vec::new();
        actions.push(Action::Bind { node: device.id, formats: true });
        if !eq::is_chain_node(device.name.as_str()) && !lists::holds(&self.metered, device.id) {
            actions.push(
                Action::Meter(
                    Target {
                        id: device.id,
                        name: device.name.clone(),
                        is_sink: text::same(device.class.as_str(), "Audio/Sink"),
                    },
                ),
            );
        }
        actions.push(Action::Report(Event::Added(device)));
        proof {
            assert(actions@ =~= adoption(all, old(self).metered()));
        }
        actions
    }

    /// What follows from something that went away.
    pub open spec fn has_lost(&self, after: &Self, id: u32, actions: Seq<Action>) -> bool {
        &&& after.router().ports() == self.router().ports().filter(|p: Port| p.id != id)
        &&& self.router().has_forgotten(&after.router(), id)
        &&& after.owned() == self.owned().filter(|e: (String, Owned)| e.1.id != id)
        &&& after.bound() == self.bound().remove(id)
        &&& after.metered() == self.metered().remove(id)
        &&& after.pending() == self.pending()
        &&& after.swept() == self.swept()
        &&& actions == seq![Action::Release(id), Action::Report(Event::Removed(id))]
    }

    /// Something went away. The id could be that of a port, a node or
    /// anything else.
    pub fn vanished(&mut self, id: u32) -> (actions: Vec<Action>)
        requires
            old(self).wf(),
        ensures
            final(self).wf(),
            old(self).has_lost(final(self), id, actions@),
    {
        self.router.remove_port(id);
        self.router.forget_node(id);
        let ghost entries = self.owned.entries();
        let mut marks: Vec<bool> = Vec::new();
        let n = self.owned.len();
        for i in 0..n
            invariant
                entries == self.owned.entries(),
                n == entries.len(),
                marks@.len() == i,
                forall|j: int|
                    #![trigger entries[j]]
                    0 <= j < i ==> marks@[j] == (entries[j].1.id == id),
        {
            marks.push(self.owned.entry(i).1.id == id);
        }
        let _ = self.owned.sift(&marks);
        proof {
            table::marked_by(entries, marks@, false, |e: (String, Owned)| e.1.id != id);
        }
        let _ = lists::set_member(&mut self.metered, id, false);
        let _ = lists::set_member(&mut self.bound, id, false);
        let mut actions: Vec<Action> = Vec::new();
        actions.push(Action::Release(id));
        actions.push(Action::Report(Event::Removed(id)));
        proof {
            assert(actions@ =~= seq![Action::Release(id), Action::Report(Event::Removed(id))]);
        }
        actions
    }

    /// The core has finished what it was asked to. The first time, that
    /// means the registry has been replayed, and everything that already
    /// existed has been reported.
    pub fn done(&mut self, id: u32, seq: i32, sync_seq: i32) -> (actions: Vec<Action>)
        requires
            old(self).wf(),
        ensures
            final(self).wf(),
            final(self).router() == old(self).router(),
            final(self).owned() == old(self).owned(),
            final(self).bound() == old(self).bound(),
            final(self).metered() == old(self).metered(),
            final(self).pending() == old(self).pending(),
            final(self).swept() == (old(self).swept() || (id == CORE && seq == sync_seq)),
            actions@ == (if id == CORE && seq == sync_seq && !old(self).swept() {
                seq![Action::Report(Event::Enumerated)]
            } else {
                seq![]
            }),
    {
        let mut actions: Vec<Action> = Vec::new();
        if id == CORE && seq == sync_seq {
            if !self.swept {
                actions.push(Action::Report(Event::Enumerated));
            }
            self.swept = true;
        }
        actions
    }

    // -----------------------------------------------------------------
    // Commands

    /// What follows from a command.
    pub open spec fn has_handled(
        &self,
        after: &Self,
        command: Command,
        actions: Seq<Action>,
    ) -> bool {
        match command {
            Command::SetRoute { route, enabled } => {
                &&& after.same_nodes(self)
                &&& self.router().has_turned(&after.router(), route, enabled)
                &&& connects(
                    actions,
                    if enabled && !self.router().links().contains_key(route) {
                        seq![route]
                    } else {
                        seq![]
                    },
                    |r: Route| self.router().joins(r),
                )
            },
            Command::CreateDevices => {
                let kept = self.owned().filter(|e: (String, Owned)| !is_misfiled(e));
                let gone = self.owned().filter(|e: (String, Owned)| is_misfiled(e));
                &&& after.same_but_owned(self)
                &&& after.owned() == kept
                &&& ends_with_create(actions, destroys(gone), names(kept))
            },
            Command::RemoveDevices => {
                &&& after.unchanged(self)
                &&& actions == destroys(self.owned()) + seq![Action::LetGoOfSinks]
            },
            Command::RecreateDevices => {
                &&& after.same_but_owned(self)
                &&& after.owned() == Seq::<(String, Owned)>::empty()
                &&& ends_with_create(
                    actions,
                    destroys(self.owned()) + seq![Action::LetGoOfSinks],
                    seq![],
                )
            },
            Command::SetMono { node, end, mono } => {
                &&& after.same_nodes(self)
                &&& self.router().has_folded(&after.router(), node, end, mono)
                &&& connects(
                    actions,
                    self.router().affected(node, end, mono),
                    |r: Route| after.router().joins(r),
                )
            },
            Command::RetryRoutes => {
                &&& after.same_nodes(self)
                &&& self.router().has_let_go(&after.router(), self.router().stale())
                &&& connects(
                    actions,
                    self.router().stale(),
                    |r: Route| self.router().joins(r),
                )
            },
            Command::Record { takes, rate } => {
                &&& after.unchanged(self)
                &&& actions == seq![Action::StopTakes] + started(takes@, rate)
            },
            Command::SetControls { node, controls } => {
                &&& after.same_but_pending(self)
                &&& after.pending() == held_after(self.pending(), self.bound(), node, controls)
                &&& actions == sends(due(self.pending(), self.bound())) + (if self.bound().contains(
                    node,
                ) {
                    seq![Action::Controls { node, controls }]
                } else {
                    seq![]
                })
            },
            Command::SetVolume { node, amplitude, balance } => {
                &&& after.unchanged(self)
                &&& actions == (if self.bound().contains(node) {
                    seq![Action::Volume { node, amplitude, balance }]
                } else {
                    seq![]
                })
            },
            Command::SetMute { node, muted } => {
                &&& after.unchanged(self)
                &&& actions == (if self.bound().contains(node) {
                    seq![Action::Mute { node, muted }]
                } else {
                    seq![]
                })
            },
        }
    }

    /// Apply one command.
    pub fn handle(&mut self, command: Command) -> (actions: Vec<Action>)
        requires
            old(self).wf(),
        ensures
            final(self).wf(),
            old(self).has_handled(final(self), command, actions@),
    {
        match command {
            Command::SetRoute { route, enabled } => {
                let joins = self.router.set_route(route, enabled);
                let mut actions: Vec<Action> = Vec::new();
                if let Some(joins) = joins {
                    actions.push(Action::Connect(Plan { route, joins }));
                }
                actions
            },
            Command::CreateDevices => self.create_devices(),
            Command::RemoveDevices => {
                let mut actions = self.destroy_all();
                actions.push(Action::LetGoOfSinks);
                proof {
                    assert(actions@ =~= destroys(self.owned()) + seq![Action::LetGoOfSinks]);
                }
                actions
            },
            Command::RecreateDevices => {
                let mut actions = self.destroy_all();
                actions.push(Action::LetGoOfSinks);
                let ghost before = actions@;
                self.owned.clear();
                let none: Vec<String> = Vec::new();
                let made = sinks::create_missing(&none);
                actions.push(Action::Create(made));
                proof {
                    assert(before =~= destroys(old(self).owned()) + seq![Action::LetGoOfSinks]);
                    assert(text::texts(none@) =~= Seq::<Seq<char>>::empty());
                    assert(actions@.drop_last() =~= before);
                }
                actions
            },
            Command::SetMono { node, end, mono } => {
                let plans = self.router.set_mono(node, end, mono);
                connect_all(plans)
            },
            Command::RetryRoutes => {
                let plans = self.router.retry_pending();
                connect_all(plans)
            },
            Command::Record { takes, rate } => record_all(takes, rate),
            Command::SetControls { node, controls } => self.write_controls(node, controls),
            Command::SetVolume { node, amplitude, balance } => {
                let mut actions: Vec<Action> = Vec::new();
                if lists::holds(&self.bound, node) {
                    actions.push(Action::Volume { node, amplitude, balance });
                }
                actions
            },
            Command::SetMute { node, muted } => {
                let mut actions: Vec<Action> = Vec::new();
                if lists::holds(&self.bound, node) {
                    actions.push(Action::Mute { node, muted });
                }
                actions
            },
        }
    }

    fn destroy_all(&self) -> (actions: Vec<Action>)
        ensures
            actions@ == destroys(self.owned()),
    {
        let mut actions: Vec<Action> = Vec::new();
        let ghost want = destroys(self.owned());
        let n = self.owned.len();
        for i in 0..n
            invariant
                want == destroys(self.owned.entries()),
                n == want.len(),
                actions@ == want.take(i as int),
        {
            actions.push(Action::Destroy(self.owned.entry(i).1.id));
            proof {
                assert(want.take(i + 1) =~= want.take(i as int).push(want[i as int]));
            }
        }
        proof {
            assert(want.take(want.len() as int) =~= want);
        }
        actions
    }

    fn create_devices(&mut self) -> (actions: Vec<Action>)
        requires
            old(self).wf(),
        ensures
            final(self).wf(),
            old(self).has_handled(final(self), Command::CreateDevices, actions@),
    {
        let ghost entries = self.owned.entries();
        let mut marks: Vec<bool> = Vec::new();
        let n = self.owned.len();
        for i in 0..n
            invariant
                entries == self.owned.entries(),
                n == entries.len(),
                marks@.len() == i,
                forall|j: int|
                    #![trigger entries[j]]
                    0 <= j < i ==> marks@[j] == is_misfiled(entries[j]),
        {
            let entry = self.owned.entry(i);
            marks.push(sinks::wrong_class(entry.0.as_str(), entry.1.class.as_str()));
        }
        let stale = self.owned.sift(&marks);
        proof {
            table::marked_by(entries, marks@, false, |e: (String, Owned)| !is_misfiled(e));
            table::marked_by(entries, marks@, true, |e: (String, Owned)| is_misfiled(e));
        }
        let mut actions: Vec<Action> = Vec::new();
        let ghost gone = destroys(stale@);
        for i in 0..stale.len()
            invariant
                gone == destroys(stale@),
                actions@ == gone.take(i as int),
        {
            actions.push(Action::Destroy(stale[i].1.id));
            proof {
                assert(gone.take(i + 1) =~= gone.take(i as int).push(gone[i as int]));
            }
        }
        proof {
            assert(gone.take(gone.len() as int) =~= gone);
        }
        let ghost kept = names(self.owned.entries());
        let mut existing = text::blank();
        let n = self.owned.len();
        for i in 0..n
            invariant
                n == kept.len(),
                kept == names(self.owned.entries()),
                text::texts(existing@) == kept.take(i as int),
        {
            text::write(&mut existing, self.owned.entry(i).0.clone());
            proof {
                assert(kept.take(i + 1) =~= kept.take(i as int).push(kept[i as int]));
            }
        }
        proof {
            assert(kept.take(kept.len() as int) =~= kept);
        }
        let made = sinks::create_missing(&existing);
        actions.push(Action::Create(made));
        proof {
            assert(actions@.drop_last() =~= gone);
        }
        actions
    }

    /// Send control values to a node, holding them if it is not bound yet.
    ///
    /// A filter chain that has not started has no proxy. Holding and
    /// retrying on the next write is enough in practice: callers push
    /// controls repeatedly, so a chain that comes up late gets its levels on
    /// the following pass rather than never.
    fn write_controls(&mut self, node: u32, controls: Vec<(String, Single)>) -> (actions: Vec<
        Action,
    >)
        requires
            old(self).wf(),
        ensures
            final(self).wf(),
            old(self).has_handled(
                final(self),
                Command::SetControls { node, controls },
                actions@,
            ),
    {
        let ghost entries = self.pending.entries();
        let ghost bound = self.bound();
        let mut marks: Vec<bool> = Vec::new();
        let n = self.pending.len();
        for i in 0..n
            invariant
                entries == self.pending.entries(),
                n == entries.len(),
                bound == self.bound@.to_set(),
                marks@.len() == i,
                forall|j: int|
                    #![trigger entries[j]]
                    0 <= j < i ==> marks@[j] == bound.contains(entries[j].0),
        {
            marks.push(lists::holds(&self.bound, self.pending.entry(i).0));
        }
        let ready = self.pending.sift(&marks);
        proof {
            table::marked_by(entries, marks@, true, |e: (u32, Vec<(String, Single)>)|
                bound.contains(e.0));
            table::marked_by(entries, marks@, false, |e: (u32, Vec<(String, Single)>)|
                !bound.contains(e.0));
        }
        let mut actions = send_all(ready);
        if lists::holds(&self.bound, node) {
            let ghost before = actions@;
            actions.push(Action::Controls { node, controls });
            proof {
                assert(actions@ =~= before + seq![Action::Controls { node, controls }]);
            }
        } else {
            self.pending.insert(node, controls);
            proof {
                assert(actions@ =~= actions@ + Seq::<Action>::empty());
            }
        }
        actions
    }
}

/// The held writes whose nodes are bound by now.
pub open spec fn due(
    pending: Seq<(u32, Vec<(String, Single)>)>,
    bound: Set<u32>,
) -> Seq<(u32, Vec<(String, Single)>)> {
    pending.filter(|e: (u32, Vec<(String, Single)>)| bound.contains(e.0))
}

/// The held writes whose nodes still are not.
pub open spec fn not_due(
    pending: Seq<(u32, Vec<(String, Single)>)>,
    bound: Set<u32>,
) -> Seq<(u32, Vec<(String, Single)>)> {
    pending.filter(|e: (u32, Vec<(String, Single)>)| !bound.contains(e.0))
}

/// What is held after a write to a node.
pub open spec fn held_after(
    pending: Seq<(u32, Vec<(String, Single)>)>,
    bound: Set<u32>,
    node: u32,
    controls: Vec<(String, Single)>,
) -> Seq<(u32, Vec<(String, Single)>)> {
    if bound.contains(node) {
        not_due(pending, bound)
    } else {
        table::with_entry(not_due(pending, bound), node, controls)
    }
}

/// Some actions, and then the sinks that are missing are made.
pub open spec fn ends_with_create(
    actions: Seq<Action>,
    before: Seq<Action>,
    existing: Seq<Seq<char>>,
) -> bool {
    &&& actions.len() == before.len() + 1
    &&& actions.drop_last() == before
    &&& actions.last() matches Action::Create(list) && sinks::views(list@) == sinks::missing(
        existing,
    )
}

fn connect_all(plans: Vec<Plan>) -> (actions: Vec<Action>)
    ensures
        actions@ == plans@.map_values(|p: Plan| Action::Connect(p)),
{
    let ghost want = plans@.map_values(|p: Plan| Action::Connect(p));
    let mut actions: Vec<Action> = Vec::new();
    for plan in it: plans
        invariant
            want == plans@.map_values(|p: Plan| Action::Connect(p)),
            it.seq() == plans@,
            actions@ == want.take(it.index() as int),
    {
        actions.push(Action::Connect(plan));
        proof {
            let i = it.index() as int;
            assert(want.take(i + 1) =~= want.take(i).push(want[i]));
        }
    }
    proof {
        assert(want.take(want.len() as int) =~= want);
    }
    actions
}

fn send_all(list: Vec<(u32, Vec<(String, Single)>)>) -> (actions: Vec<Action>)
    ensures
        actions@ == sends(list@),
{
    let ghost want = sends(list@);
    let mut actions: Vec<Action> = Vec::new();
    for entry in it: list
        invariant
            want == sends(list@),
            it.seq() == list@,
            actions@ == want.take(it.index() as int),
    {
        let (node, controls) = entry;
        actions.push(Action::Controls { node, controls });
        proof {
            let i = it.index() as int;
            assert(want.take(i + 1) =~= want.take(i).push(want[i]));
        }
    }
    proof {
        assert(want.take(want.len() as int) =~= want);
    }
    actions
}

fn record_all(takes: Vec<(String, String)>, rate: u32) -> (actions: Vec<Action>)
    ensures
        actions@ == seq![Action::StopTakes] + started(takes@, rate),
{
    let ghost want = seq![Action::StopTakes] + started(takes@, rate);
    let mut actions: Vec<Action> = Vec::new();
    actions.push(Action::StopTakes);
    proof {
        assert(actions@ =~= want.take(1));
    }
    for take in it: takes
        invariant
            want == seq![Action::StopTakes] + started(takes@, rate),
            it.seq() == takes@,
            actions@ == want.take(it.index() as int + 1),
    {
        let (name, path) = take;
        actions.push(Action::Take { name, path, rate });
        proof {
            let i = it.index() as int + 1;
            assert(want.take(i + 1) =~= want.take(i).push(want[i]));
        }
    }
    proof {
        assert(want.take(want.len() as int) =~= want);
    }
    actions
}

/// Bind a proxy to an application's stream, as is done for a device.
///
/// Without it the per-application slider and its M button have nothing to
/// send Props to: the row moved on screen and nothing happened to the audio.
fn adopt_stream(stream: Stream) -> (actions: Vec<Action>)
    ensures
        actions@ == stream_adoption(stream),
{
    let ghost all = stream;
    let mut actions: Vec<Action> = Vec::new();
    actions.push(Action::Bind { node: stream.id, formats: false });
    if !stream.node_name.as_str().is_empty() {
        actions.push(
            Action::Meter(
                Target { id: stream.id, name: stream.node_name.clone(), is_sink: false },
            ),
        );
    }
    actions.push(Action::Report(Event::StreamAdded(stream)));
    proof {
        assert(actions@ =~= stream_adoption(all));
    }
    actions
}

/// What is said when the server has gone away.
pub open spec fn farewell(message: Seq<char>, res: int) -> Seq<char> {
    message + " ("@ + text::signed_decimal(res) + ")"@
}

/// The core reports an error. Only one of its own that says the server has
/// gone away ends the connection.
///
/// Quitting the loop on it is what makes a dead server visible. Without it
/// the daemon can go away (a package update restarting it is enough) and the
/// thread sits in a loop that never fires again, with the mixer still on
/// screen and connected to nothing.
pub fn core_error(id: u32, res: i32, message: &str) -> (actions: Vec<Action>)
    ensures
        if id == CORE && res == -32 {
            &&& actions@.len() == 2
            &&& actions@[0] matches Action::Report(Event::Disconnected(why)) && why@ == farewell(
                message@,
                res as int,
            )
            &&& actions@[1] == Action::Quit
        } else {
            actions@.len() == 0
        },
{
    let mut actions: Vec<Action> = Vec::new();
    if id == CORE && res == -libc_epipe() {
        let mut why = text::cat3(message, " (", text::signed_number(res as i64).as_str());
        why.append(")");
        actions.push(Action::Report(Event::Disconnected(why)));
        actions.push(Action::Quit);
    }
    actions
}

// ---------------------------------------------------------------------
// Laws

/// Whether a write to a node is held.
pub open spec fn holds(
    pending: Seq<(u32, Vec<(String, Single)>)>,
    node: u32,
    controls: Vec<(String, Single)>,
) -> bool {
    pending.contains((node, controls))
}

/// No write is lost in silence: it is held where its node has no proxy, and
/// of what was held before, all is either sent or still held, but for what a
/// newer write to the same node replaces.
pub proof fn a_write_is_sent_or_held(
    pending: Seq<(u32, Vec<(String, Single)>)>,
    bound: Set<u32>,
    node: u32,
    controls: Vec<(String, Single)>,
)
    ensures
        bound.contains(node) || holds(held_after(pending, bound, node, controls), node, controls),
        forall|n: u32, c: Vec<(String, Single)>| #[trigger]
            holds(pending, n, c) ==> {
                ||| bound.contains(n) && holds(due(pending, bound), n, c)
                ||| n == node
                ||| holds(held_after(pending, bound, node, controls), n, c)
            },
{
    let ready = |e: (u32, Vec<(String, Single)>)| bound.contains(e.0);
    let unready = |e: (u32, Vec<(String, Single)>)| !bound.contains(e.0);
    let rest = not_due(pending, bound);
    let after = held_after(pending, bound, node, controls);
    if !bound.contains(node) {
        if table::keys_of(rest).contains(node) {
            assert(after[table::keys_of(rest).index_of(node)] == (node, controls));
        } else {
            assert(after[rest.len() as int] == (node, controls));
        }
    }
    assert forall|n: u32, c: Vec<(String, Single)>| #[trigger] holds(pending, n, c) implies {
        ||| bound.contains(n) && holds(due(pending, bound), n, c)
        ||| n == node
        ||| holds(after, n, c)
    } by {
        lists::filter_contains(pending, ready, (n, c));
        lists::filter_contains(pending, unready, (n, c));
        if !bound.contains(n) && n != node {
            let k = rest.index_of((n, c));
            assert(rest[k] == (n, c));
            if !bound.contains(node) && table::keys_of(rest).contains(node) {
                let at = table::keys_of(rest).index_of(node);
                assert(table::keys_of(rest)[at] == node);
                assert(table::keys_of(rest)[k] == n);
                assert(after[k] == (n, c));
            } else {
                assert(after[k] == (n, c));
            }
        }
    }
}

/// Once a node is bound, the next write leaves nothing held for it.
pub proof fn nothing_is_held_for_a_bound_node(
    pending: Seq<(u32, Vec<(String, Single)>)>,
    bound: Set<u32>,
    node: u32,
    controls: Vec<(String, Single)>,
    n: u32,
    c: Vec<(String, Single)>,
)
    requires
        holds(held_after(pending, bound, node, controls), n, c),
    ensures
        !bound.contains(n),
{
    let unready = |e: (u32, Vec<(String, Single)>)| !bound.contains(e.0);
    let rest = not_due(pending, bound);
    let after = held_after(pending, bound, node, controls);
    let k = after.index_of((n, c));
    lists::filter_contains(pending, unready, (n, c));
    if !bound.contains(node) && n != node {
        if table::keys_of(rest).contains(node) {
            let at = table::keys_of(rest).index_of(node);
            assert(table::keys_of(rest)[at] == node);
            assert(k != at);
        }
        assert(rest[k] == (n, c));
    }
}

/// The control writes to a node among some actions.
pub open spec fn writes_to(actions: Seq<Action>, node: u32) -> Seq<Action> {
    actions.filter(is_write_to(node))
}

/// Whether an action is a control write to a node.
pub open spec fn is_write_to(node: u32) -> spec_fn(Action) -> bool {
    |action: Action| (action matches Action::Controls { node: n, .. } && n == node)
}

/// Where nothing is held for a node that could be sent, nothing that was
/// held goes to it.
proof fn nothing_due_is_sent(
    pending: Seq<(u32, Vec<(String, Single)>)>,
    bound: Set<u32>,
    node: u32,
)
    requires
        forall|c: Vec<(String, Single)>| holds(pending, node, c) ==> !bound.contains(node),
    ensures
        writes_to(sends(due(pending, bound)), node).len() == 0,
{
    let ready = |e: (u32, Vec<(String, Single)>)| bound.contains(e.0);
    let list = due(pending, bound);
    let actions = sends(list);
    assert forall|i: int| 0 <= i < actions.len() implies !is_write_to(node)(
        #[trigger] actions[i],
    ) by {
        let (n, c) = list[i];
        assert(list.contains((n, c)));
        lists::filter_contains(pending, ready, (n, c));
        assert(holds(pending, n, c));
    }
    lists::filter_at(actions, 0, is_write_to(node), true);
}

/// What is held for a bound node is sent to it, and nothing else that is
/// held.
proof fn what_is_due_is_sent_once(
    pending: Seq<(u32, Vec<(String, Single)>)>,
    bound: Set<u32>,
    node: u32,
    controls: Vec<(String, Single)>,
)
    requires
        table::keys_of(pending).no_duplicates(),
        holds(pending, node, controls),
        bound.contains(node),
    ensures
        writes_to(sends(due(pending, bound)), node) == seq![Action::Controls { node, controls }],
{
    let ready = |e: (u32, Vec<(String, Single)>)| bound.contains(e.0);
    let id = |e: (u32, Vec<(String, Single)>)| e.0;
    let list = due(pending, bound);
    let actions = sends(list);
    assert forall|i: int, j: int| 0 <= i < j < pending.len() implies id(#[trigger] pending[i])
        != id(#[trigger] pending[j]) by {
        assert(table::keys_of(pending)[i] == pending[i].0);
        assert(table::keys_of(pending)[j] == pending[j].0);
    }
    lists::filter_keeps_apart(pending, ready, id);
    lists::filter_contains(pending, ready, (node, controls));
    let at = list.index_of((node, controls));
    assert forall|j: int| 0 <= j < actions.len() && j != at implies !is_write_to(node)(
        #[trigger] actions[j],
    ) by {
        if j < at {
            assert(id(list[j]) != id(list[at]));
        } else {
            assert(id(list[at]) != id(list[j]));
        }
    }
    assert(actions[at] == Action::Controls { node, controls });
    lists::only_one_kept(actions, at, is_write_to(node));
}

/// A write to a node that has no proxy yet sends it nothing. Once the node
/// has one, the next write, to whatever node, sends what was held exactly
/// once and before its own, and no later write sends it again. With nothing
/// else held, nothing else is sent at all.
pub proof fn a_held_write_goes_out_once<L>(
    start: Session<L>,
    node: u32,
    controls: Vec<(String, Single)>,
    first: Seq<Action>,
    held: Session<L>,
    ready: Session<L>,
    next_node: u32,
    next_controls: Vec<(String, Single)>,
    second: Seq<Action>,
    sent: Session<L>,
    later: Session<L>,
    last_node: u32,
    last_controls: Vec<(String, Single)>,
    third: Seq<Action>,
    end: Session<L>,
)
    requires
        held.wf(),
        !start.bound().contains(node),
        start.has_handled(&held, Command::SetControls { node, controls }, first),
        ready.pending() == held.pending(),
        ready.bound().contains(node),
        ready.has_handled(
            &sent,
            Command::SetControls { node: next_node, controls: next_controls },
            second,
        ),
        later.pending() == sent.pending(),
        later.has_handled(
            &end,
            Command::SetControls { node: last_node, controls: last_controls },
            third,
        ),
    ensures
        writes_to(first, node).len() == 0,
        ready.bound().contains(next_node) ==> {
            &&& second.len() > 0
            &&& second.last() == (Action::Controls { node: next_node, controls: next_controls })
            &&& writes_to(second.drop_last(), node) == seq![Action::Controls { node, controls }]
        },
        !ready.bound().contains(next_node) ==> writes_to(second, node) == seq![
            Action::Controls { node, controls },
        ],
        forall|c: Vec<(String, Single)>| !holds(sent.pending(), node, c),
        writes_to(third, node) == (if last_node == node && later.bound().contains(node) {
            seq![Action::Controls { node, controls: last_controls }]
        } else {
            seq![]
        }),
        start.pending().len() == 0 ==> first.len() == 0,
        start.pending().len() == 0 && ready.bound().contains(next_node) ==> {
            &&& second == seq![
                Action::Controls { node, controls },
                Action::Controls { node: next_node, controls: next_controls },
            ]
            &&& sent.pending().len() == 0
            &&& third == (if later.bound().contains(last_node) {
                seq![Action::Controls { node: last_node, controls: last_controls }]
            } else {
                seq![]
            })
        },
{
    let pending = held.pending();
    let bound = ready.bound();
    nothing_due_is_sent(start.pending(), start.bound(), node);
    assert(first =~= sends(due(start.pending(), start.bound())));

    a_write_is_sent_or_held(start.pending(), start.bound(), node, controls);
    what_is_due_is_sent_once(pending, bound, node, controls);
    if bound.contains(next_node) {
        assert(second.drop_last() =~= sends(due(pending, bound)));
    } else {
        assert(second =~= sends(due(pending, bound)));
    }

    assert forall|c: Vec<(String, Single)>| !holds(sent.pending(), node, c) by {
        if holds(sent.pending(), node, c) {
            nothing_is_held_for_a_bound_node(pending, bound, next_node, next_controls, node, c);
        }
    }
    let left = sends(due(sent.pending(), later.bound()));
    let own = Action::Controls { node: last_node, controls: last_controls };
    nothing_due_is_sent(sent.pending(), later.bound(), node);
    assert(writes_to(left, node) =~= seq![]);
    if later.bound().contains(last_node) {
        reveal(Seq::filter);
        assert(third =~= left.push(own));
        assert(third.drop_last() =~= left);
        assert(writes_to(third, node) =~= if last_node == node {
            seq![own]
        } else {
            seq![]
        });
    } else {
        assert(third =~= left);
    }

    if start.pending().len() == 0 {
        let ready_now = |e: (u32, Vec<(String, Single)>)| start.bound().contains(e.0);
        let unready_now = |e: (u32, Vec<(String, Single)>)| !start.bound().contains(e.0);
        lists::all_kept(start.pending(), ready_now);
        lists::all_kept(start.pending(), unready_now);
        assert(not_due(start.pending(), start.bound()) =~= seq![]);
        assert(pending =~= seq![(node, controls)]);
        lists::all_kept(pending, |e: (u32, Vec<(String, Single)>)| bound.contains(e.0));
        lists::filter_at(pending, 0, |e: (u32, Vec<(String, Single)>)| !bound.contains(e.0), true);
        if bound.contains(next_node) {
            assert(second =~= seq![
                Action::Controls { node, controls },
                Action::Controls { node: next_node, controls: next_controls },
            ]);
            assert(sent.pending().len() == 0);
            lists::all_kept(
                sent.pending(),
                |e: (u32, Vec<(String, Single)>)| later.bound().contains(e.0),
            );
            assert(left =~= seq![]);
        }
    }
}

/// Devices that are there under the class they should have are adopted:
/// once all of them are, asking for them makes nothing and destroys nothing.
pub proof fn devices_that_are_there_are_adopted(owned: Seq<(String, Owned)>)
    requires
        forall|i: int| 0 <= i < owned.len() ==> !is_misfiled(#[trigger] owned[i]),
        forall|i: int|
            0 <= i < sinks::specs().len() ==> names(owned).contains(
                (#[trigger] sinks::specs()[i]).name,
            ),
    ensures
        destroys(owned.filter(|e: (String, Owned)| is_misfiled(e))).len() == 0,
        sinks::missing(names(owned.filter(|e: (String, Owned)| !is_misfiled(e)))).len() == 0,
{
    let gone = owned.filter(|e: (String, Owned)| is_misfiled(e));
    if gone.len() > 0 {
        let e = gone[0];
        assert(gone.contains(e));
        lists::filter_contains(owned, |e: (String, Owned)| is_misfiled(e), e);
        let k = owned.index_of(e);
        assert(is_misfiled(owned[k]));
    }
    lists::all_kept(owned, |e: (String, Owned)| !is_misfiled(e));
    let left = sinks::missing(names(owned));
    let keep = |s: sinks::SpecText| !names(owned).contains(s.name);
    if left.len() > 0 {
        let s = left[0];
        assert(left.contains(s));
        lists::filter_contains(sinks::specs(), keep, s);
        let k = sinks::specs().index_of(s);
        assert(names(owned).contains(sinks::specs()[k].name));
    }
}

/// A device that appears is bound with its format asked for, and then told
/// of. Between the two it is metered, by its own number and name and as a
/// sink exactly where it is one, unless it is an end of a chain of ours or
/// has a meter already. One of ours is remembered under its name with its
/// number and its class, and nothing else changes.
pub proof fn a_device_that_appears_is_taken_on<L>(
    before: Session<L>,
    after: Session<L>,
    device: Device,
    actions: Seq<Action>,
    entry: (String, Owned),
)
    requires
        before.wf(),
        before.has_seen(&after, Seen::Device(device), actions),
    ensures
        ({
            let ours = sinks::names(sinks::specs()).contains(device.name@);
            let heard = !eq::is_endpoint(device.name@) && !before.metered().contains(device.id);
            &&& actions[0] == (Action::Bind { node: device.id, formats: true })
            &&& actions.last() == Action::Report(Event::Added(device))
            &&& !heard ==> actions.len() == 2
            &&& heard ==> actions.len() == 3 && (actions[1] matches Action::Meter(t) && t.id
                == device.id && t.name@ == device.name@ && t.is_sink == (device.class@
                == "Audio/Sink"@))
            &&& !ours ==> after.owned() == before.owned()
            &&& ours && entry.0@ != device.name@ ==> after.owned().contains(entry)
                == before.owned().contains(entry)
            &&& ours && entry.0@ == device.name@ && after.owned().contains(entry) ==> entry.1.id
                == device.id && entry.1.class@ == device.class@
            &&& ours ==> names(after.owned()).contains(device.name@)
            &&& after.router() == before.router()
            &&& after.bound() == before.bound()
            &&& after.metered() == before.metered()
            &&& after.pending() == before.pending()
            &&& after.swept() == before.swept()
        }),
{
    sinks::ours_are_filed_as_sinks(device.name@, device.class@);
    let owned = Owned { id: device.id, class: device.class };
    an_entry_stands_for_its_key(before.owned(), device.name, owned, entry);
}

/// A table's entry stands for its key from then on, and the entries of other
/// keys stay.
proof fn an_entry_stands_for_its_key(
    entries: Seq<(String, Owned)>,
    key: String,
    value: Owned,
    entry: (String, Owned),
)
    requires
        table::keys_of(entries).no_duplicates(),
    ensures
        ({
            let after = table::with_entry(entries, key, value);
            &&& entry.0@ != key@ ==> after.contains(entry) == entries.contains(entry)
            &&& entry.0@ == key@ && after.contains(entry) ==> entry.1 == value
            &&& table::keys_of(after).contains(key@)
        }),
{
    let keys = table::keys_of(entries);
    let after = table::with_entry(entries, key, value);
    if keys.contains(key@) {
        let i = keys.index_of(key@);
        assert(after[i] == (key, value));
        assert(table::keys_of(after)[i] == key@);
        if entries.contains(entry) && entry.0@ != key@ {
            let k = entries.index_of(entry);
            assert(keys[k] == entry.0@);
            assert(after[k] == entry);
        }
        if after.contains(entry) {
            let k = after.index_of(entry);
            if k != i {
                assert(after[k] == entries[k]);
                assert(keys[k] == entry.0@);
            }
        }
    } else {
        let n = entries.len() as int;
        assert(after[n] == (key, value));
        assert(table::keys_of(after)[n] == key@);
        if entries.contains(entry) {
            assert(after[entries.index_of(entry)] == entry);
        }
        if after.contains(entry) {
            let k = after.index_of(entry);
            if k < n {
                assert(entries[k] == entry);
                assert(keys[k] == entry.0@);
            }
        }
    }
}

/// An application that appears is bound, metered at its own node where that
/// has a name, and told of. A link is told of. Nothing is remembered of
/// either, and what is nothing to us is passed over.
pub proof fn an_application_that_appears_is_told_of<L>(
    before: Session<L>,
    after: Session<L>,
    seen: Seen,
    actions: Seq<Action>,
)
    requires
        before.has_seen(&after, seen, actions),
    ensures
        seen matches Seen::Stream(stream) ==> {
            &&& actions[0] == (Action::Bind { node: stream.id, formats: false })
            &&& actions.last() == Action::Report(Event::StreamAdded(stream))
            &&& stream.node_name@.len() == 0 ==> actions.len() == 2
            &&& stream.node_name@.len() > 0 ==> actions.len() == 3 && (
            actions[1] matches Action::Meter(t) && t.id == stream.id && t.name@
                == stream.node_name@ && !t.is_sink)
        },
        seen matches Seen::Link(link) ==> actions == seq![Action::Report(Event::LinkAdded(link))],
        seen is Other ==> actions.len() == 0,
        seen is Stream || seen is Link || seen is Other ==> after.unchanged(&before),
{
}

/// A port that appears is noted, and every wanted route that it leaves short
/// of links is made again with the ports that are there now. No other route
/// loses its links.
pub proof fn a_port_that_appears_completes_routes<L>(
    before: Session<L>,
    after: Session<L>,
    port: Port,
    actions: Seq<Action>,
    route: Route,
)
    requires
        before.has_seen(&after, Seen::Port(port), actions),
    ensures
        ({
            let ports = after.router().ports();
            let folded = before.router().mono(End::Source).contains(route.source)
                || before.router().mono(End::Target).contains(route.target);
            let joins = links::joins_for(ports, folded, route);
            let held = if before.router().links().contains_key(route) {
                before.router().links()[route]@.len()
            } else {
                0
            };
            let due = before.router().desired().contains(route) && held < joins.len();
            &&& ports == links::with_port(before.router().ports(), port)
            &&& after.router().desired() == before.router().desired()
            &&& (exists|k: int|
                0 <= k < actions.len() && ((#[trigger] actions[k]) matches Action::Connect(p)
                    && p.route == route)) == due
            &&& forall|k: int|
                0 <= k < actions.len() ==> ((#[trigger] actions[k]) matches Action::Connect(p)
                    && (p.route == route ==> p.joins@ == joins))
            &&& after.router().links().contains_key(route) == (
            before.router().links().contains_key(route) && !due)
            &&& after.same_nodes(&before)
        }),
{
    let noted = choose|noted: Router<L>|
        {
            &&& #[trigger] before.router().has_noted(&noted, port)
            &&& noted.has_let_go(&after.router(), noted.stale())
            &&& connects(actions, noted.stale(), |r: Route| noted.joins(r))
        };
    connecting_is_planning(noted, after.router(), actions, route);
}

/// Making again what is incomplete connects exactly that.
proof fn connecting_is_planning<L>(
    before: Router<L>,
    after: Router<L>,
    actions: Seq<Action>,
    route: Route,
)
    requires
        before.has_let_go(&after, before.stale()),
        connects(actions, before.stale(), |r: Route| before.joins(r)),
    ensures
        ({
            let held = if before.links().contains_key(route) {
                before.links()[route]@.len()
            } else {
                0
            };
            let due = before.desired().contains(route) && held < before.joins(route).len();
            &&& (exists|k: int|
                0 <= k < actions.len() && ((#[trigger] actions[k]) matches Action::Connect(p)
                    && p.route == route)) == due
            &&& forall|k: int|
                0 <= k < actions.len() ==> ((#[trigger] actions[k]) matches Action::Connect(p)
                    && (p.route == route ==> p.joins@ == before.joins(route)))
            &&& after.links().contains_key(route) == (before.links().contains_key(route) && !due)
            &&& after.desired() == before.desired()
            &&& after.ports() == before.ports()
        }),
{
    let stale = before.stale();
    lists::filter_contains(before.desired(), |r: Route| before.is_stale(r), route);
    connecting_covers(actions, stale, |r: Route| before.joins(r), route);
    assert(stale.to_set().contains(route) == stale.contains(route));
}

/// What connects some routes connects a route exactly where it is one of
/// them, by its own links.
proof fn connecting_covers(
    actions: Seq<Action>,
    routes: Seq<Route>,
    joins: spec_fn(Route) -> Seq<Join>,
    route: Route,
)
    requires
        connects(actions, routes, joins),
    ensures
        (exists|k: int|
            0 <= k < actions.len() && ((#[trigger] actions[k]) matches Action::Connect(p)
                && p.route == route)) == routes.contains(route),
        forall|k: int|
            0 <= k < actions.len() ==> ((#[trigger] actions[k]) matches Action::Connect(p) && (
            p.route == route ==> p.joins@ == joins(route))),
{
    if routes.contains(route) {
        let k = routes.index_of(route);
        assert(actions[k] matches Action::Connect(p) && p.route == route);
    }
    if exists|k: int|
        0 <= k < actions.len() && ((#[trigger] actions[k]) matches Action::Connect(p) && p.route
            == route) {
        let k = choose|k: int|
            0 <= k < actions.len() && ((#[trigger] actions[k]) matches Action::Connect(p)
                && p.route == route);
        assert(routes[k] == route);
    }
}

/// What vanishes is let go of and told of. No port, no route, no device of
/// ours, no proxy and no meter of it is left, and nothing of anything else
/// goes.
pub proof fn what_vanishes_leaves_nothing<L>(
    before: Session<L>,
    after: Session<L>,
    id: u32,
    actions: Seq<Action>,
    port: Port,
    route: Route,
    entry: (String, Owned),
    node: u32,
)
    requires
        before.has_lost(&after, id, actions),
    ensures
        actions == seq![Action::Release(id), Action::Report(Event::Removed(id))],
        after.router().ports().contains(port) == (before.router().ports().contains(port) && port.id
            != id),
        after.router().desired().contains(route) == (before.router().desired().contains(route)
            && route.source != id && route.target != id),
        after.router().links().contains_key(route) == (before.router().links().contains_key(route)
            && route.source != id && route.target != id),
        after.owned().contains(entry) == (before.owned().contains(entry) && entry.1.id != id),
        after.bound().contains(node) == (before.bound().contains(node) && node != id),
        after.metered().contains(node) == (before.metered().contains(node) && node != id),
        after.pending() == before.pending(),
        after.swept() == before.swept(),
{
    lists::filter_contains(before.router().ports(), |p: Port| p.id != id, port);
    lists::filter_contains(before.owned(), |e: (String, Owned)| e.1.id != id, entry);
    links::a_node_takes_its_routes_along(before.router(), after.router(), id, route);
}

/// Asking for a route connects it where it has no links yet, and asking for
/// none connects nothing. Either settles that one route.
pub proof fn a_route_is_connected_when_asked_for<L>(
    before: Session<L>,
    after: Session<L>,
    route: Route,
    enabled: bool,
    actions: Seq<Action>,
    other: Route,
)
    requires
        before.has_handled(&after, Command::SetRoute { route, enabled }, actions),
    ensures
        enabled && !before.router().links().contains_key(route) ==> actions.len() == 1 && (
        actions[0] matches Action::Connect(p) && p.route == route && p.joins@
            == before.router().joins(route)),
        !enabled || before.router().links().contains_key(route) ==> actions.len() == 0,
        after.router().desired().contains(route) == enabled,
        other != route ==> after.router().desired().contains(other)
            == before.router().desired().contains(other),
        after.router().links().contains_key(other) == (before.router().links().contains_key(other)
            && (enabled || other != route)),
        after.same_nodes(&before),
{
    links::asking_settles_one_route(before.router(), after.router(), route, enabled, other);
}

/// Folding a node connects again every wanted route that has it at that end,
/// exactly where it changes anything.
pub proof fn folding_connects_what_it_touches<L>(
    before: Session<L>,
    after: Session<L>,
    node: u32,
    end: End,
    mono: bool,
    actions: Seq<Action>,
    route: Route,
)
    requires
        before.wf(),
        before.has_handled(&after, Command::SetMono { node, end, mono }, actions),
    ensures
        ({
            let there = match end {
                End::Source => route.source == node,
                End::Target => route.target == node,
            };
            let changed = before.router().mono(end).contains(node) != mono;
            &&& (exists|k: int|
                0 <= k < actions.len() && ((#[trigger] actions[k]) matches Action::Connect(p)
                    && p.route == route)) == (changed && there
                && before.router().desired().contains(route))
            &&& forall|k: int|
                0 <= k < actions.len() ==> ((#[trigger] actions[k]) matches Action::Connect(p) && (
                p.route == route ==> p.joins@ == after.router().joins(route)))
            &&& changed && there ==> !after.router().links().contains_key(route)
            &&& !changed || !there ==> after.router().links().contains_key(route)
                == before.router().links().contains_key(route)
            &&& after.router().mono(end).contains(node) == mono
            &&& after.same_nodes(&before)
        }),
{
    let affected = before.router().affected(node, end, mono);
    connecting_covers(actions, affected, |r: Route| after.router().joins(r), route);
    lists::filter_contains(before.router().desired(), |r: Route| r.has_at(end, node), route);
    assert(affected.to_set().contains(route) == affected.contains(route));
}

/// A retry connects exactly the wanted routes that are short of links.
pub proof fn a_retry_connects_what_is_short<L>(
    before: Session<L>,
    after: Session<L>,
    actions: Seq<Action>,
    route: Route,
)
    requires
        before.has_handled(&after, Command::RetryRoutes, actions),
    ensures
        ({
            let held = if before.router().links().contains_key(route) {
                before.router().links()[route]@.len()
            } else {
                0
            };
            let due = before.router().desired().contains(route) && held < before.router().joins(
                route,
            ).len();
            &&& (exists|k: int|
                0 <= k < actions.len() && ((#[trigger] actions[k]) matches Action::Connect(p)
                    && p.route == route)) == due
            &&& after.router().links().contains_key(route) == (
            before.router().links().contains_key(route) && !due)
            &&& after.router().desired() == before.router().desired()
            &&& after.same_nodes(&before)
        }),
{
    connecting_is_planning(before.router(), after.router(), actions, route);
}

/// Creating the devices destroys those of ours that are filed wrongly and
/// forgets them, keeps the others, and makes exactly what is not there then.
pub proof fn creating_makes_what_is_missing<L>(
    before: Session<L>,
    after: Session<L>,
    actions: Seq<Action>,
    entry: (String, Owned),
    spec: sinks::SpecText,
)
    requires
        before.has_handled(&after, Command::CreateDevices, actions),
    ensures
        ({
            let wrong = sinks::names(sinks::specs()).contains(entry.0@) && entry.1.class@
                != "Audio/Sink"@;
            &&& after.owned().contains(entry) == (before.owned().contains(entry) && !wrong)
            &&& before.owned().contains(entry) && wrong ==> actions.contains(
                Action::Destroy(entry.1.id),
            )
            &&& forall|k: int|
                0 <= k < actions.len() - 1 ==> ((#[trigger] actions[k]) matches Action::Destroy(id)
                    && exists|e: (String, Owned)|
                    #[trigger] before.owned().contains(e) && e.1.id == id && e.1.class@
                        != "Audio/Sink"@)
            &&& actions.len() > 0
            &&& actions.last() matches Action::Create(list) && (sinks::views(list@).contains(spec)
                == (sinks::specs().contains(spec) && !names(after.owned()).contains(spec.name)))
            &&& after.router() == before.router()
        }),
{
    let good = |e: (String, Owned)| !is_misfiled(e);
    let bad = |e: (String, Owned)| is_misfiled(e);
    let gone = before.owned().filter(bad);
    lists::filter_contains(before.owned(), good, entry);
    lists::filter_contains(before.owned(), bad, entry);
    sinks::ours_are_filed_as_sinks(entry.0@, entry.1.class@);
    let ends = destroys(gone);
    if gone.contains(entry) {
        let k = gone.index_of(entry);
        assert(ends[k] == Action::Destroy(entry.1.id));
        assert(actions.drop_last()[k] == actions[k]);
    }
    assert forall|k: int| 0 <= k < actions.len() - 1 implies ((
    #[trigger] actions[k]) matches Action::Destroy(id) && exists|e: (String, Owned)|
        #[trigger] before.owned().contains(e) && e.1.id == id && e.1.class@ != "Audio/Sink"@) by {
        assert(actions[k] == actions.drop_last()[k]);
        let e = gone[k];
        assert(actions[k] == Action::Destroy(e.1.id));
        assert(gone.contains(e));
        lists::filter_contains(before.owned(), bad, e);
        sinks::ours_are_filed_as_sinks(e.0@, e.1.class@);
        assert(before.owned().contains(e));
    }
    sinks::only_what_is_missing_is_made(names(after.owned()), spec);
}

/// Removing the devices destroys every one of ours and lets go of them, and
/// making them again does so first, forgets them, and makes them all.
pub proof fn removing_takes_all_of_ours<L>(
    before: Session<L>,
    after: Session<L>,
    again: bool,
    actions: Seq<Action>,
    i: int,
)
    requires
        before.has_handled(
            &after,
            if again {
                Command::RecreateDevices
            } else {
                Command::RemoveDevices
            },
            actions,
        ),
    ensures
        ({
            let n = before.owned().len() as int;
            &&& 0 <= i < n ==> actions[i] == Action::Destroy(before.owned()[i].1.id)
            &&& actions[n] == Action::LetGoOfSinks
            &&& !again ==> actions.len() == n + 1 && after.unchanged(&before)
            &&& again ==> {
                &&& actions.len() == n + 2
                &&& actions[n + 1] matches Action::Create(list) && sinks::views(list@)
                    == sinks::specs()
                &&& after.owned().len() == 0
                &&& after.router() == before.router()
                &&& after.bound() == before.bound()
                &&& after.metered() == before.metered()
                &&& after.pending() == before.pending()
            }
        }),
{
    let n = before.owned().len() as int;
    let ends = destroys(before.owned()) + seq![Action::LetGoOfSinks];
    if again {
        assert(actions.drop_last() == ends);
        assert(actions[n] == actions.drop_last()[n]);
        if 0 <= i < n {
            assert(actions[i] == actions.drop_last()[i]);
        }
        sinks::a_first_run_makes_all();
        assert(actions.last() == actions[n + 1]);
    }
}

/// Recording stops every take first and then starts each one that was asked
/// for, by name, into its own file, at the one rate.
pub proof fn recording_starts_afresh<L>(
    before: Session<L>,
    after: Session<L>,
    takes: Vec<(String, String)>,
    rate: u32,
    actions: Seq<Action>,
    i: int,
)
    requires
        before.has_handled(&after, Command::Record { takes, rate }, actions),
    ensures
        actions.len() == 1 + takes@.len(),
        actions[0] == Action::StopTakes,
        0 <= i < takes@.len() ==> actions[1 + i] == (Action::Take {
            name: takes@[i].0,
            path: takes@[i].1,
            rate,
        }),
        after.unchanged(&before),
{
    if 0 <= i < takes@.len() {
        assert(actions[1 + i] == started(takes@, rate)[i]);
    }
}

/// A volume or a mute goes to a node exactly where it is bound, as it was
/// asked for.
pub proof fn only_a_bound_node_is_turned<L>(
    before: Session<L>,
    after: Session<L>,
    node: u32,
    amplitude: Single,
    balance: (Single, Single),
    muted: bool,
    volume: bool,
    actions: Seq<Action>,
)
    requires
        before.has_handled(
            &after,
            if volume {
                Command::SetVolume { node, amplitude, balance }
            } else {
                Command::SetMute { node, muted }
            },
            actions,
        ),
    ensures
        !before.bound().contains(node) ==> actions.len() == 0,
        before.bound().contains(node) ==> actions.len() == 1,
        before.bound().contains(node) && volume ==> actions[0] == (Action::Volume {
            node,
            amplitude,
            balance,
        }),
        before.bound().contains(node) && !volume ==> actions[0] == (Action::Mute { node, muted }),
        after.unchanged(&before),
{
}

/// Why the connection went is told in the server's own words, with its number
/// in brackets behind them, a minus before it where it has one.
pub proof fn a_farewell_gives_the_number(message: Seq<char>, n: nat)
    ensures
        farewell(message, n as int) == message + " ("@ + text::decimal(n) + ")"@,
        n > 0 ==> farewell(message, -n) == message + " (-"@ + text::decimal(n) + ")"@,
{
    reveal_strlit(" (");
    reveal_strlit(" (-");
    assert(" (-"@ =~= " ("@ + seq!['-']);
    if n > 0 {
        assert(farewell(message, -n) =~= message + " (-"@ + text::decimal(n) + ")"@);
    }
}

/// Only a broken pipe at the core ends the session, and then why is told
/// before it is left; every other error is passed over.
pub proof fn only_a_broken_pipe_ends_it(id: u32, res: i32, message: &str, actions: Vec<Action>)
    requires
        call_ensures(core_error, (id, res, message), actions),
    ensures
        id != 0 || res != -32 ==> actions@.len() == 0,
        id == 0 && res == -32 ==> {
            &&& actions@.len() == 2
            &&& actions@[0] matches Action::Report(Event::Disconnected(why)) && why@ == message@
                + " (-"@ + text::decimal(32) + ")"@
            &&& actions@[1] == Action::Quit
        },
{
    a_farewell_gives_the_number(message@, 32);
}

} // verus!
