//! `PipeWire` backend.
//!
//! `PipeWire`'s objects are not `Send`, and its main loop blocks, so the whole
//! connection lives on its own thread and talks to the UI over a channel.
//! The UI never touches a `PipeWire` object directly: it drains [`Event`]s
//! once per frame and reads the resulting snapshot, which is [`Backend`].
//! What it wants done it says with a [`Command`].

pub mod chain;
pub mod describe;
pub mod dynamics;
pub mod eq;
pub mod fx;
pub mod labels;
pub mod links;
pub mod meters;
pub mod monitors;
pub mod nodes;
pub mod player;
pub mod recorder;
pub mod send;
pub mod session;
pub mod sinks;
pub mod wav;

use vstd::prelude::*;

use crate::lists;
use crate::order;
use crate::single::{Single, ONE};
use crate::text;

pub use links::{End, Route, Tap};
pub use nodes::{Command, Device, Direction, LinkInfo, Stream};

verus! {

/// A change reported by the `PipeWire` thread.
#[derive(Debug, Clone)]
pub enum Event {
    Added(Device),
    StreamAdded(Stream),
    LinkAdded(LinkInfo),
    Removed(u32),
    /// A node's format, once its proxy has reported it.
    ///
    /// Its own event because the registry announcement carries neither the
    /// channel count nor the rate: those are on the node's info, which
    /// arrives only after binding. Without it every device in the settings
    /// window lists a dash where its rate and channels should be.
    Format {
        id: u32,
        rate: Option<u32>,
        channels: Option<u32>,
    },
    /// The first registry sweep has finished, so everything that already
    /// existed has been reported. Nothing may be created before this: a
    /// sink made while the sweep is still running cannot see the lingering
    /// one it should have adopted, and makes a duplicate beside it.
    Enumerated,
    /// The connection dropped. The UI keeps its last snapshot and greys out.
    Disconnected(String),
}

/// The linear amplitude to be sent for a fader.
///
/// Muting is amplitude zero rather than a separate flag, so one path covers
/// both and a mute cannot be left behind by a fader move.
pub fn amplitude_of(linear: Single, muted: bool) -> (amplitude: Single)
    ensures
        amplitude == (if muted {
            (Single { bits: 0 })
        } else {
            linear
        }),
{
    if muted {
        Single { bits: 0 }
    } else {
        linear
    }
}

/// A rate, or a dash where the node did not say.
pub open spec fn shown_rate(rate: Option<u32>) -> Seq<char> {
    match rate {
        Some(n) => text::decimal(n as nat) + " Hz"@,
        None => "-"@,
    }
}

/// A channel count, or a dash where the node did not say.
pub open spec fn shown_channels(channels: Option<u32>) -> Seq<char> {
    match channels {
        Some(n) => text::decimal(n as nat) + " ch"@,
        None => "-"@,
    }
}

/// A rate for the log, or a dash where the node did not say.
///
/// A dash rather than a zero: plenty of nodes never publish a rate, and
/// "0 Hz" reads like a fault where "-" reads like a silence.
pub fn rate_of(rate: Option<u32>) -> (r: String)
    ensures
        r@ == shown_rate(rate),
{
    match rate {
        Some(n) => text::cat2(text::number(n as u64).as_str(), " Hz"),
        None => "-".to_owned(),
    }
}

/// As [`rate_of`], for the channel count.
pub fn channels_of(channels: Option<u32>) -> (r: String)
    ensures
        r@ == shown_channels(channels),
{
    match channels {
        Some(n) => text::cat2(text::number(n as u64).as_str(), " ch"),
        None => "-".to_owned(),
    }
}

// ---------------------------------------------------------------------
// What the events add up to

/// The snapshot as the contracts see it.
#[verifier::ext_equal]
pub struct Snapshot {
    pub devices: Seq<Device>,
    pub streams: Seq<Stream>,
    pub links: Seq<LinkInfo>,
    pub connected: bool,
    pub enumerated: bool,
    pub error: Option<String>,
}

/// Whether a device with this id is there.
pub open spec fn has_device(devices: Seq<Device>, id: u32) -> bool {
    exists|i: int| 0 <= i < devices.len() && (#[trigger] devices[i]).id == id
}

/// Whether a stream with this id is there.
pub open spec fn has_stream(streams: Seq<Stream>, id: u32) -> bool {
    exists|i: int| 0 <= i < streams.len() && (#[trigger] streams[i]).id == id
}

/// Whether a link with this id is there.
pub open spec fn has_link(links: Seq<LinkInfo>, id: u32) -> bool {
    exists|i: int| 0 <= i < links.len() && (#[trigger] links[i]).id == id
}

/// The devices with one more among them: a re-announcement replaces rather
/// than duplicates.
pub open spec fn with_device(devices: Seq<Device>, device: Device) -> Seq<Device> {
    if has_device(devices, device.id) {
        devices.map_values(
            |d: Device|
                if d.id == device.id {
                    device
                } else {
                    d
                },
        )
    } else {
        devices.push(device)
    }
}

/// The streams with one more among them.
pub open spec fn with_stream(streams: Seq<Stream>, stream: Stream) -> Seq<Stream> {
    if has_stream(streams, stream.id) {
        streams.map_values(
            |s: Stream|
                if s.id == stream.id {
                    stream
                } else {
                    s
                },
        )
    } else {
        streams.push(stream)
    }
}

/// The links with one more among them, unless it is already there.
pub open spec fn with_link(links: Seq<LinkInfo>, link: LinkInfo) -> Seq<LinkInfo> {
    if has_link(links, link.id) {
        links
    } else {
        links.push(link)
    }
}

/// The devices with one's format filled in, as far as it is known: the
/// registry has told everything else about it already.
pub open spec fn with_format(
    devices: Seq<Device>,
    id: u32,
    rate: Option<u32>,
    channels: Option<u32>,
) -> Seq<Device> {
    devices.map_values(
        |d: Device|
            if d.id == id {
                Device {
                    rate: if rate is Some {
                        rate
                    } else {
                        d.rate
                    },
                    channels: if channels is Some {
                        channels
                    } else {
                        d.channels
                    },
                    ..d
                }
            } else {
                d
            },
    )
}

/// What the snapshot is after an event.
pub open spec fn step(now: Snapshot, event: Event) -> Snapshot {
    match event {
        Event::Added(device) => Snapshot { devices: with_device(now.devices, device), ..now },
        Event::StreamAdded(stream) => Snapshot {
            streams: with_stream(now.streams, stream),
            ..now
        },
        Event::LinkAdded(link) => Snapshot { links: with_link(now.links, link), ..now },
        Event::Format { id, rate, channels } => Snapshot {
            devices: with_format(now.devices, id, rate, channels),
            ..now
        },
        // The id could be any of the three; only one will match.
        Event::Removed(id) => Snapshot {
            devices: now.devices.filter(|d: Device| d.id != id),
            streams: now.streams.filter(|s: Stream| s.id != id),
            links: now.links.filter(|l: LinkInfo| l.id != id),
            ..now
        },
        Event::Enumerated => Snapshot { enumerated: true, ..now },
        Event::Disconnected(why) => Snapshot { connected: false, error: Some(why), ..now },
    }
}

/// What the snapshot is after some events.
pub open spec fn run(now: Snapshot, events: Seq<Event>) -> Snapshot
    decreases events.len(),
{
    if events.len() == 0 {
        now
    } else {
        step(run(now, events.drop_last()), events.last())
    }
}

/// No id is listed twice.
pub open spec fn distinct(now: Snapshot) -> bool {
    &&& forall|i: int, j: int|
        0 <= i < j < now.devices.len() ==> (#[trigger] now.devices[i]).id != (
        #[trigger] now.devices[j]).id
    &&& forall|i: int, j: int|
        0 <= i < j < now.streams.len() ==> (#[trigger] now.streams[i]).id != (
        #[trigger] now.streams[j]).id
    &&& forall|i: int, j: int|
        0 <= i < j < now.links.len() ==> (#[trigger] now.links[i]).id != (
        #[trigger] now.links[j]).id
}

/// How devices are sorted for display: by description.
pub open spec fn by_description(devices: Seq<Device>) -> Seq<order::Rank> {
    devices.map_values(|d: Device| order::by_text(d.description@))
}

/// How devices are sorted in the log: by name.
pub open spec fn by_name(devices: Seq<Device>) -> Seq<order::Rank> {
    devices.map_values(|d: Device| order::by_text(d.name@))
}

/// A device's line in the log.
pub open spec fn device_line(d: Device) -> Seq<char> {
    "  "@ + text::padded_right(
        match d.direction {
            Direction::Sink => "sink"@,
            Direction::Source => "source"@,
        },
        6,
    ) + " "@ + text::padded_left(text::decimal(d.id as nat), 5) + "  "@ + text::padded_left(
        shown_rate(d.rate),
        9,
    ) + " "@ + text::padded_left(shown_channels(d.channels), 5) + "  "@ + d.name@ + "  ["@
        + d.description@ + "]"@
}

/// A stream's line in the log.
pub open spec fn stream_line(s: Stream) -> Seq<char> {
    "  stream "@ + text::padded_left(text::decimal(s.id as nat), 5) + "  "@ + s.name@
}

/// What a node is called in the log: by its name where it is a device, by
/// its number where it is not.
pub open spec fn called(devices: Seq<Device>, id: u32) -> Seq<char>
    decreases devices.len(),
{
    if devices.len() == 0 {
        text::decimal(id as nat)
    } else if devices[0].id == id {
        devices[0].name@
    } else {
        called(devices.skip(1), id)
    }
}

/// A link's line in the log.
pub open spec fn link_line(devices: Seq<Device>, l: LinkInfo) -> Seq<char> {
    "  link  "@ + called(devices, l.output_node) + " -> "@ + called(devices, l.input_node)
}

/// The whole graph as the mixer sees it, line by line.
pub open spec fn dump(now: Snapshot) -> Seq<Seq<char>> {
    seq!["--- graph at startup: "@ + text::decimal(now.devices.len()) + " devices ---"@]
        + order::sorted(now.devices, by_name(now.devices)).map_values(
        |d: Device| device_line(d),
    ) + seq![
        "--- "@ + text::decimal(now.streams.len()) + " application streams, "@ + text::decimal(
            now.links.len(),
        ) + " links ---"@,
    ] + now.streams.map_values(|s: Stream| stream_line(s)) + now.links.map_values(
        |l: LinkInfo| link_line(now.devices, l),
    )
}

/// What is logged of a device that appears.
pub open spec fn appeared_line(d: Device) -> Seq<char> {
    "device appeared: "@ + d.description@ + " ("@ + d.name@ + ") id "@ + text::decimal(d.id as nat)
        + " "@ + d.class@ + " "@ + shown_rate(d.rate) + " "@ + shown_channels(d.channels)
}

/// What is logged of a device that goes away.
pub open spec fn gone_line(d: Device) -> Seq<char> {
    "device went away: "@ + d.description@ + " ("@ + d.name@ + ")"@
}

/// What is logged of an event: a device that was not listed yet, one that no
/// longer will be, and the whole graph at the end of the sweep.
pub open spec fn tidings(now: Snapshot, event: Event) -> Seq<Seq<char>> {
    match event {
        Event::Added(device) => if has_device(now.devices, device.id) {
            seq![]
        } else {
            seq![appeared_line(device)]
        },
        Event::Removed(id) => now.devices.filter(|d: Device| d.id == id).map_values(
            |d: Device| gone_line(d),
        ),
        Event::Enumerated => dump(now),
        _ => seq![],
    }
}

/// What is logged in the course of some events.
pub open spec fn logged(now: Snapshot, events: Seq<Event>) -> Seq<Seq<char>>
    decreases events.len(),
{
    if events.len() == 0 {
        seq![]
    } else {
        let before = events.drop_last();
        logged(now, before) + tidings(run(now, before), events.last())
    }
}

/// The first device of a name.
pub open spec fn id_in(devices: Seq<Device>, name: Seq<char>) -> Option<u32>
    decreases devices.len(),
{
    if devices.len() == 0 {
        None
    } else if devices[0].name@ == name {
        Some(devices[0].id)
    } else {
        id_in(devices.skip(1), name)
    }
}

/// The devices a list of references stands for.
pub open spec fn devices_in(list: Seq<&Device>) -> Seq<Device> {
    list.map_values(|d: &Device| *d)
}

/// The streams a list of references stands for.
pub open spec fn streams_in(list: Seq<&Stream>) -> Seq<Stream> {
    list.map_values(|s: &Stream| *s)
}

/// Whether a link joins one node to another.
pub open spec fn joined(links: Seq<LinkInfo>, from: u32, to: u32) -> bool {
    exists|i: int|
        0 <= i < links.len() && (#[trigger] links[i]).output_node == from && links[i].input_node
            == to
}

/// The mixer's picture of the graph, and how it says what it wants done.
#[derive(Debug)]
pub struct Backend {
    devices: Vec<Device>,
    /// Applications currently playing, and the links that say where into.
    streams: Vec<Stream>,
    links: Vec<LinkInfo>,
    connected: bool,
    /// Whether the initial registry sweep has completed.
    enumerated: bool,
    error: Option<String>,
}

/// The picture before anything was reported.
pub open spec fn blank() -> Snapshot {
    Snapshot {
        devices: seq![],
        streams: seq![],
        links: seq![],
        connected: true,
        enumerated: false,
        error: None,
    }
}

impl View for Backend {
    type V = Snapshot;

    closed spec fn view(&self) -> Snapshot {
        Snapshot {
            devices: self.devices@,
            streams: self.streams@,
            links: self.links@,
            connected: self.connected,
            enumerated: self.enumerated,
            error: self.error,
        }
    }
}

fn device_at(devices: &Vec<Device>, id: u32) -> (at: Option<usize>)
    ensures
        match at {
            Some(i) => i < devices@.len() && devices@[i as int].id == id,
            None => !has_device(devices@, id),
        },
{
    for i in 0..devices.len()
        invariant
            forall|j: int| 0 <= j < i ==> (#[trigger] devices@[j]).id != id,
    {
        if devices[i].id == id {
            return Some(i);
        }
    }
    None
}

fn stream_at(streams: &Vec<Stream>, id: u32) -> (at: Option<usize>)
    ensures
        match at {
            Some(i) => i < streams@.len() && streams@[i as int].id == id,
            None => !has_stream(streams@, id),
        },
{
    for i in 0..streams.len()
        invariant
            forall|j: int| 0 <= j < i ==> (#[trigger] streams@[j]).id != id,
    {
        if streams[i].id == id {
            return Some(i);
        }
    }
    None
}

fn link_at(links: &Vec<LinkInfo>, id: u32) -> (at: Option<usize>)
    ensures
        match at {
            Some(i) => i < links@.len() && links@[i as int].id == id,
            None => !has_link(links@, id),
        },
{
    for i in 0..links.len()
        invariant
            forall|j: int| 0 <= j < i ==> (#[trigger] links@[j]).id != id,
    {
        if links[i].id == id {
            return Some(i);
        }
    }
    None
}

/// The event keeps the ids apart.
proof fn step_keeps_distinct(now: Snapshot, event: Event)
    requires
        distinct(now),
    ensures
        distinct(step(now, event)),
{
    match event {
        Event::Removed(id) => {
            let keep_d = |d: Device| d.id != id;
            let keep_s = |s: Stream| s.id != id;
            let keep_l = |l: LinkInfo| l.id != id;
            lists::filter_keeps_apart(now.devices, keep_d, |d: Device| d.id);
            lists::filter_keeps_apart(now.streams, keep_s, |s: Stream| s.id);
            lists::filter_keeps_apart(now.links, keep_l, |l: LinkInfo| l.id);
            let after = step(now, event);
            assert forall|i: int, j: int| 0 <= i < j < after.devices.len() implies (
            #[trigger] after.devices[i]).id != (#[trigger] after.devices[j]).id by {}
            assert forall|i: int, j: int| 0 <= i < j < after.streams.len() implies (
            #[trigger] after.streams[i]).id != (#[trigger] after.streams[j]).id by {}
            assert forall|i: int, j: int| 0 <= i < j < after.links.len() implies (
            #[trigger] after.links[i]).id != (#[trigger] after.links[j]).id by {}
        },
        _ => {
            let after = step(now, event);
            assert forall|i: int, j: int| 0 <= i < j < after.devices.len() implies (
            #[trigger] after.devices[i]).id != (#[trigger] after.devices[j]).id by {
                if j < now.devices.len() {
                    assert(now.devices[i].id != now.devices[j].id);
                } else {
                    assert(now.devices[i].id == after.devices[i].id);
                }
            }
            assert forall|i: int, j: int| 0 <= i < j < after.streams.len() implies (
            #[trigger] after.streams[i]).id != (#[trigger] after.streams[j]).id by {
                if j < now.streams.len() {
                    assert(now.streams[i].id != now.streams[j].id);
                } else {
                    assert(now.streams[i].id == after.streams[i].id);
                }
            }
            assert forall|i: int, j: int| 0 <= i < j < after.links.len() implies (
            #[trigger] after.links[i]).id != (#[trigger] after.links[j]).id by {
                if j < now.links.len() {
                    assert(now.links[i].id != now.links[j].id);
                }
            }
        },
    }
}

/// Sorting keeps the ids apart.
proof fn sorting_keeps_distinct(devices: Seq<Device>, ranks: Seq<order::Rank>)
    requires
        forall|i: int, j: int|
            0 <= i < j < devices.len() ==> (#[trigger] devices[i]).id != (#[trigger] devices[j]).id,
    ensures
        ({
            let after = order::sorted(devices, ranks);
            forall|i: int, j: int|
                0 <= i < j < after.len() ==> (#[trigger] after[i]).id != (#[trigger] after[j]).id
        }),
{
    let after = order::sorted(devices, ranks);
    let places = order::order_of(ranks, devices.len());
    order::order_of_is_order(ranks, devices.len());
    assert forall|i: int, j: int| 0 <= i < j < after.len() implies (#[trigger] after[i]).id != (
    #[trigger] after[j]).id by {
        order::order_of_is_injective(ranks, devices.len(), i, j);
        let (a, b) = (places[i], places[j]);
        if a < b {
            assert(devices[a].id != devices[b].id);
        } else {
            assert(devices[b].id != devices[a].id);
        }
    }
}

impl Backend {
    /// No id is listed twice.
    pub open spec fn wf(&self) -> bool {
        distinct(self@)
    }

    /// A picture of nothing, of a connection that is just being made.
    ///
    /// If the connection cannot be made, the failure arrives as an
    /// [`Event::Disconnected`] and the UI runs with no devices.
    pub fn new() -> (backend: Backend)
        ensures
            backend.wf(),
            backend@ == blank(),
    {
        Backend {
            devices: Vec::new(),
            streams: Vec::new(),
            links: Vec::new(),
            connected: true,
            enumerated: false,
            error: None,
        }
    }

    /// How many audio devices the backend currently knows about.
    #[must_use]
    pub fn device_count(&self) -> (n: usize)
        ensures
            n == self@.devices.filter(|d: Device| d.assignable).len(),
    {
        let ghost keep = |d: Device| d.assignable;
        let mut n: usize = 0;
        proof {
            lists::filter_none(self.devices@, keep);
        }
        for i in 0..self.devices.len()
            invariant
                keep == (|d: Device| d.assignable),
                n <= i,
                n == self.devices@.take(i as int).filter(keep).len(),
        {
            if self.devices[i].assignable {
                n = n + 1;
            }
            proof {
                lists::filter_step(self.devices@, i as int, keep);
            }
        }
        proof {
            assert(self.devices@.take(self.devices@.len() as int) =~= self.devices@);
        }
        n
    }

    /// Whether the backend still has a live connection.
    #[must_use]
    pub fn connected(&self) -> (r: bool)
        ensures
            r == self@.connected,
    {
        self.connected
    }

    /// Whether the backend has finished reporting what already existed.
    #[must_use]
    pub fn enumerated(&self) -> (r: bool)
        ensures
            r == self@.enumerated,
    {
        self.enumerated
    }

    /// Throw away what is known, for a new connection.
    ///
    /// Everything cached here described the old graph: node ids are not
    /// stable across a reconnect, so keeping any of it would leave the mixer
    /// routing to numbers that now mean something else, or nothing.
    pub fn reconnect(&mut self)
        ensures
            final(self).wf(),
            final(self)@ == blank(),
    {
        self.devices.clear();
        self.streams.clear();
        self.links.clear();
        self.connected = true;
        self.enumerated = false;
        self.error = None;
    }

    fn take(&mut self, event: Event)
        requires
            old(self).wf(),
        ensures
            final(self).wf(),
            final(self)@ == step(old(self)@, event),
    {
        proof {
            step_keeps_distinct(self@, event);
        }
        let ghost now = self@;
        match event {
            Event::Added(device) => {
                match device_at(&self.devices, device.id) {
                    Some(i) => {
                        self.devices[i] = device;
                        proof {
                            assert(has_device(now.devices, device.id));
                            assert(self.devices@ =~= with_device(now.devices, device));
                        }
                    },
                    None => {
                        self.devices.push(device);
                    },
                }
            },
            Event::StreamAdded(stream) => {
                match stream_at(&self.streams, stream.id) {
                    Some(i) => {
                        self.streams[i] = stream;
                        proof {
                            assert(has_stream(now.streams, stream.id));
                            assert(self.streams@ =~= with_stream(now.streams, stream));
                        }
                    },
                    None => {
                        self.streams.push(stream);
                    },
                }
            },
            Event::LinkAdded(link) => {
                match link_at(&self.links, link.id) {
                    Some(i) => {
                        proof {
                            assert(has_link(now.links, link.id));
                        }
                    },
                    None => {
                        self.links.push(link);
                    },
                }
            },
            Event::Format { id, rate, channels } => {
                match device_at(&self.devices, id) {
                    Some(i) => {
                        if rate.is_some() {
                            self.devices[i].rate = rate;
                        }
                        if channels.is_some() {
                            self.devices[i].channels = channels;
                        }
                    },
                    None => {},
                }
                proof {
                    assert(self.devices@ =~= with_format(now.devices, id, rate, channels));
                }
            },
            Event::Removed(id) => {
                let ghost keep_d = |d: Device| d.id != id;
                let ghost keep_s = |s: Stream| s.id != id;
                let ghost keep_l = |l: LinkInfo| l.id != id;
                match device_at(&self.devices, id) {
                    Some(i) => {
                        self.devices.remove(i);
                        proof {
                            lists::all_but_one(now.devices, i as int, keep_d);
                        }
                    },
                    None => {
                        proof {
                            lists::all_kept(now.devices, keep_d);
                        }
                    },
                }
                match stream_at(&self.streams, id) {
                    Some(i) => {
                        self.streams.remove(i);
                        proof {
                            lists::all_but_one(now.streams, i as int, keep_s);
                        }
                    },
                    None => {
                        proof {
                            lists::all_kept(now.streams, keep_s);
                        }
                    },
                }
                match link_at(&self.links, id) {
                    Some(i) => {
                        self.links.remove(i);
                        proof {
                            lists::all_but_one(now.links, i as int, keep_l);
                        }
                    },
                    None => {
                        proof {
                            lists::all_kept(now.links, keep_l);
                        }
                    },
                }
            },
            Event::Enumerated => {
                self.enumerated = true;
            },
            Event::Disconnected(why) => {
                self.connected = false;
                self.error = Some(why);
            },
        }
    }

    fn sort(&mut self)
        requires
            old(self).wf(),
        ensures
            final(self).wf(),
            final(self)@ == (Snapshot {
                devices: order::sorted(old(self)@.devices, by_description(old(self)@.devices)),
                ..old(self)@
            }),
    {
        let ghost all = self.devices@;
        let keys = self.description_keys();
        let mut devices: Vec<Device> = Vec::new();
        std::mem::swap(&mut devices, &mut self.devices);
        self.devices = order::sort(devices, &keys);
        proof {
            sorting_keeps_distinct(all, by_description(all));
        }
    }

    fn description_keys(&self) -> (keys: Vec<order::Key>)
        ensures
            keys@.len() == self@.devices.len(),
            order::ranks(keys@) == by_description(self@.devices),
    {
        let mut keys: Vec<order::Key> = Vec::new();
        for i in 0..self.devices.len()
            invariant
                keys@.len() == i,
                forall|j: int|
                    0 <= j < i ==> (#[trigger] keys@[j])@ == order::by_text(
                        self.devices@[j].description@,
                    ),
        {
            keys.push(order::Key { late: false, text: self.devices[i].description.clone() });
        }
        proof {
            assert(order::ranks(keys@) =~= by_description(self@.devices));
        }
        keys
    }

    fn news(&self, event: &Event) -> (page: Vec<String>)
        requires
            self.wf(),
        ensures
            text::texts(page@) == tidings(self@, *event),
    {
        let mut page = text::blank();
        match event {
            Event::Added(device) => {
                if device_at(&self.devices, device.id).is_none() {
                    text::write(&mut page, line_of_appeared(device));
                    proof {
                        assert(text::texts(page@) =~= seq![appeared_line(*device)]);
                    }
                }
            },
            Event::Removed(id) => {
                let ghost test = |d: Device| d.id == *id;
                match device_at(&self.devices, *id) {
                    Some(at) => {
                        text::write(&mut page, line_of_gone(&self.devices[at]));
                        proof {
                            let all = self.devices@;
                            assert forall|j: int| 0 <= j < all.len() && j != at implies !test(
                                #[trigger] all[j],
                            ) by {
                                if j < at {
                                    assert(all[j].id != all[at as int].id);
                                } else {
                                    assert(all[at as int].id != all[j].id);
                                }
                            }
                            lists::only_one_kept(all, at as int, test);
                            assert(text::texts(page@) =~= tidings(self@, *event));
                        }
                    },
                    None => {
                        proof {
                            lists::filter_at(self.devices@, 0, test, true);
                            assert(tidings(self@, *event) =~= seq![]);
                        }
                    },
                }
            },
            Event::Enumerated => {
                page = self.dump_graph();
            },
            _ => {},
        }
        page
    }

    /// Take in what was reported, in order. Call once per frame.
    ///
    /// `closed` says that the `PipeWire` thread is gone. What is returned is
    /// for the log: the devices that appeared and went away, and the whole
    /// graph, once `PipeWire` has finished saying what already exists.
    pub fn poll(&mut self, events: Vec<Event>, closed: bool) -> (lines: Vec<String>)
        requires
            old(self).wf(),
        ensures
            final(self).wf(),
            ({
                let after = run(old(self)@, events@);
                final(self)@ == (Snapshot {
                    devices: order::sorted(after.devices, by_description(after.devices)),
                    connected: after.connected && !closed,
                    ..after
                })
            }),
            text::texts(lines@) == logged(old(self)@, events@),
    {
        let mut lines = text::blank();
        let ghost all = events@;
        for event in it: events
            invariant
                it.seq() == all,
                self.wf(),
                self@ == run(old(self)@, all.take(it.index() as int)),
                text::texts(lines@) == logged(old(self)@, all.take(it.index() as int)),
        {
            proof {
                let i = it.index() as int;
                assert(all.take(i + 1).drop_last() =~= all.take(i));
                assert(all.take(i + 1).last() == all[i]);
            }
            let page = self.news(&event);
            text::write_all(&mut lines, &page);
            self.take(event);
        }
        proof {
            assert(all.take(all.len() as int) =~= all);
        }
        if closed {
            self.connected = false;
        }
        self.sort();
        lines
    }

    fn device_lines(&self) -> (page: Vec<String>)
        ensures
            text::texts(page@) == order::sorted(
                self@.devices,
                by_name(self@.devices),
            ).map_values(|d: Device| device_line(d)),
    {
        let ghost all = self.devices@;
        let mut keys: Vec<order::Key> = Vec::new();
        for i in 0..self.devices.len()
            invariant
                all == self.devices@,
                keys@.len() == i,
                forall|j: int|
                    0 <= j < i ==> (#[trigger] keys@[j])@ == order::by_text(all[j].name@),
        {
            keys.push(order::Key { late: false, text: self.devices[i].name.clone() });
        }
        proof {
            assert(order::ranks(keys@) =~= by_name(all));
        }
        let places = order::order(&keys);
        let ghost want = order::sorted(all, by_name(all)).map_values(|d: Device| device_line(d));
        let mut page = text::blank();
        for p in 0..places.len()
            invariant
                all == self.devices@,
                places@.len() == all.len(),
                places@.map_values(|i: usize| i as int) == order::order_of(
                    by_name(all),
                    all.len(),
                ),
                forall|q: int| 0 <= q < places@.len() ==> #[trigger] places@[q] < all.len(),
                want == order::sorted(all, by_name(all)).map_values(|d: Device| device_line(d)),
                text::texts(page@) == want.take(p as int),
        {
            let line = line_of_device(&self.devices[places[p]]);
            text::write(&mut page, line);
            proof {
                assert(order::order_of(by_name(all), all.len())[p as int] == places@[p as int]);
                assert(want.take(p + 1) =~= want.take(p as int).push(want[p as int]));
            }
        }
        proof {
            assert(order::order_of(by_name(all), all.len()).len() == all.len());
            assert(want.take(want.len() as int) =~= want);
        }
        page
    }

    fn stream_lines(&self) -> (page: Vec<String>)
        ensures
            text::texts(page@) == self@.streams.map_values(|s: Stream| stream_line(s)),
    {
        let ghost want = self@.streams.map_values(|s: Stream| stream_line(s));
        let mut page = text::blank();
        for i in 0..self.streams.len()
            invariant
                want == self.streams@.map_values(|s: Stream| stream_line(s)),
                text::texts(page@) == want.take(i as int),
        {
            let stream = &self.streams[i];
            let mut line = text::cat3(
                "  stream ",
                text::pad_left(text::number(stream.id as u64).as_str(), 5).as_str(),
                "  ",
            );
            line.append(stream.name.as_str());
            text::write(&mut page, line);
            proof {
                assert(want.take(i + 1) =~= want.take(i as int).push(want[i as int]));
            }
        }
        proof {
            assert(want.take(want.len() as int) =~= want);
        }
        page
    }

    fn name_of(&self, id: u32) -> (name: String)
        ensures
            name@ == called(self@.devices, id),
    {
        let ghost all = self.devices@;
        proof {
            assert(all.skip(0) =~= all);
        }
        for i in 0..self.devices.len()
            invariant
                all == self.devices@,
                called(all, id) == called(all.skip(i as int), id),
        {
            proof {
                assert(all.skip(i as int)[0] == all[i as int]);
                assert(all.skip(i as int).skip(1) =~= all.skip(i + 1));
            }
            if self.devices[i].id == id {
                return self.devices[i].name.clone();
            }
        }
        text::number(id as u64)
    }

    fn link_lines(&self) -> (page: Vec<String>)
        ensures
            text::texts(page@) == self@.links.map_values(
                |l: LinkInfo| link_line(self@.devices, l),
            ),
    {
        let ghost want = self@.links.map_values(|l: LinkInfo| link_line(self@.devices, l));
        let mut page = text::blank();
        for i in 0..self.links.len()
            invariant
                want == self@.links.map_values(|l: LinkInfo| link_line(self@.devices, l)),
                text::texts(page@) == want.take(i as int),
        {
            let link = self.links[i];
            let mut line = text::cat3(
                "  link  ",
                self.name_of(link.output_node).as_str(),
                " -> ",
            );
            line.append(self.name_of(link.input_node).as_str());
            text::write(&mut page, line);
            proof {
                assert(want.take(i + 1) =~= want.take(i as int).push(want[i as int]));
            }
        }
        proof {
            assert(want.take(want.len() as int) =~= want);
        }
        page
    }

    /// Write out the whole graph as the mixer sees it.
    ///
    /// Done once, the moment `PipeWire` has finished saying what already
    /// exists. A report that begins "it does not work" can then be answered
    /// without asking what was plugged in at the time.
    pub fn dump_graph(&self) -> (page: Vec<String>)
        ensures
            text::texts(page@) == dump(self@),
    {
        let mut page = text::blank();
        text::write(
            &mut page,
            text::cat3(
                "--- graph at startup: ",
                text::number(self.devices.len() as u64).as_str(),
                " devices ---",
            ),
        );
        let devices = self.device_lines();
        text::write_all(&mut page, &devices);
        text::write(
            &mut page,
            text::cat5(
                "--- ",
                text::number(self.streams.len() as u64).as_str(),
                " application streams, ",
                text::number(self.links.len() as u64).as_str(),
                " links ---",
            ),
        );
        let streams = self.stream_lines();
        text::write_all(&mut page, &streams);
        let links = self.link_lines();
        text::write_all(&mut page, &links);
        proof {
            assert(text::texts(page@) =~= dump(self@));
        }
        page
    }

    /// Every known device in one direction.
    pub fn devices(&self, direction: Direction) -> (list: Vec<&Device>)
        ensures
            devices_in(list@) == self@.devices.filter(|d: Device| d.direction == direction),
    {
        let ghost all = self.devices@;
        let ghost keep = |d: Device| d.direction == direction;
        let mut list: Vec<&Device> = Vec::new();
        proof {
            lists::filter_none(all, keep);
            assert(devices_in(list@) =~= Seq::empty());
        }
        for i in 0..self.devices.len()
            invariant
                all == self.devices@,
                keep == (|d: Device| d.direction == direction),
                devices_in(list@) == all.take(i as int).filter(keep),
        {
            let device = &self.devices[i];
            let ghost so_far = devices_in(list@);
            if device.direction == direction {
                list.push(device);
                proof {
                    assert(devices_in(list@) =~= so_far.push(*device));
                }
            }
            proof {
                lists::filter_step(all, i as int, keep);
            }
        }
        proof {
            assert(all.take(all.len() as int) =~= all);
        }
        list
    }

    /// Devices a strip or bus may be assigned to: real hardware only.
    ///
    /// Our own virtual sinks are excluded. They are already strips in their
    /// own right, and offering one as a hardware out invites routing a strip
    /// back into itself.
    pub fn assignable(&self, direction: Direction) -> (list: Vec<&Device>)
        ensures
            devices_in(list@) == self@.devices.filter(
                |d: Device| may_be_assigned(d, direction),
            ),
    {
        let ghost all = self.devices@;
        let ghost keep = |d: Device| may_be_assigned(d, direction);
        let mut list: Vec<&Device> = Vec::new();
        proof {
            lists::filter_none(all, keep);
            assert(devices_in(list@) =~= Seq::empty());
        }
        for i in 0..self.devices.len()
            invariant
                all == self.devices@,
                keep == (|d: Device| may_be_assigned(d, direction)),
                devices_in(list@) == all.take(i as int).filter(keep),
        {
            let device = &self.devices[i];
            let ghost so_far = devices_in(list@);
            if device.direction == direction && device.assignable && !sinks::is_ours(
                device.name.as_str(),
            ) {
                list.push(device);
                proof {
                    assert(devices_in(list@) =~= so_far.push(*device));
                }
            }
            proof {
                lists::filter_step(all, i as int, keep);
            }
        }
        proof {
            assert(all.take(all.len() as int) =~= all);
        }
        list
    }

    /// How many links arrive at a node.
    ///
    /// Asked rather than assumed: a route is a *request*, and one whose
    /// ports have not appeared is deferred inside the router. Code that
    /// treats "I asked" as "it happened" reports success and leaves a chain
    /// wired to nothing.
    #[must_use]
    pub fn links_into(&self, node: u32) -> (n: usize)
        ensures
            n == self@.links.filter(|l: LinkInfo| l.input_node == node).len(),
    {
        let ghost keep = |l: LinkInfo| l.input_node == node;
        let mut n: usize = 0;
        proof {
            lists::filter_none(self.links@, keep);
        }
        for i in 0..self.links.len()
            invariant
                keep == (|l: LinkInfo| l.input_node == node),
                n <= i,
                n == self.links@.take(i as int).filter(keep).len(),
        {
            if self.links[i].input_node == node {
                n = n + 1;
            }
            proof {
                lists::filter_step(self.links@, i as int, keep);
            }
        }
        proof {
            assert(self.links@.take(self.links@.len() as int) =~= self.links@);
        }
        n
    }

    /// How many links leave a node right now.
    #[must_use]
    pub fn links_from(&self, node: u32) -> (n: usize)
        ensures
            n == self@.links.filter(|l: LinkInfo| l.output_node == node).len(),
    {
        let ghost keep = |l: LinkInfo| l.output_node == node;
        let mut n: usize = 0;
        proof {
            lists::filter_none(self.links@, keep);
        }
        for i in 0..self.links.len()
            invariant
                keep == (|l: LinkInfo| l.output_node == node),
                n <= i,
                n == self.links@.take(i as int).filter(keep).len(),
        {
            if self.links[i].output_node == node {
                n = n + 1;
            }
            proof {
                lists::filter_step(self.links@, i as int, keep);
            }
        }
        proof {
            assert(self.links@.take(self.links@.len() as int) =~= self.links@);
        }
        n
    }

    /// The live id of a node by its `PipeWire` name, if it is present.
    /// Ids are not stable across restarts, so routing always goes through
    /// this rather than caching one.
    pub fn id_of(&self, name: &str) -> (id: Option<u32>)
        ensures
            id == id_in(self@.devices, name@),
    {
        let ghost all = self.devices@;
        proof {
            assert(all.skip(0) =~= all);
        }
        for i in 0..self.devices.len()
            invariant
                all == self.devices@,
                id_in(all, name@) == id_in(all.skip(i as int), name@),
        {
            proof {
                assert(all.skip(i as int)[0] == all[i as int]);
                assert(all.skip(i as int).skip(1) =~= all.skip(i + 1));
            }
            if text::same(self.devices[i].name.as_str(), name) {
                return Some(self.devices[i].id);
            }
        }
        None
    }

    fn is_joined(&self, from: u32, to: u32) -> (r: bool)
        ensures
            r == joined(self@.links, from, to),
    {
        for i in 0..self.links.len()
            invariant
                forall|j: int|
                    0 <= j < i ==> !((#[trigger] self.links@[j]).output_node == from
                        && self.links@[j].input_node == to),
        {
            if self.links[i].output_node == from && self.links[i].input_node == to {
                return true;
            }
        }
        false
    }

    /// Applications currently playing into the named sink, each once however
    /// many links it has.
    ///
    /// Resolved through the link graph rather than any "target" property:
    /// what a stream *asked* for and what it is actually joined to can
    /// differ, and the links are the truth.
    pub fn apps_playing_into(&self, sink_name: &str) -> (list: Vec<&Stream>)
        ensures
            streams_in(list@) == (match id_in(self@.devices, sink_name@) {
                Some(sink) => self@.streams.filter(
                    |s: Stream| joined(self@.links, s.id, sink),
                ),
                None => Seq::<Stream>::empty(),
            }),
    {
        let mut list: Vec<&Stream> = Vec::new();
        proof {
            assert(streams_in(list@) =~= Seq::empty());
        }
        let sink = match self.id_of(sink_name) {
            Some(sink) => sink,
            None => {
                return list;
            },
        };
        let ghost all = self.streams@;
        let ghost keep = |s: Stream| joined(self@.links, s.id, sink);
        proof {
            lists::filter_none(all, keep);
        }
        for i in 0..self.streams.len()
            invariant
                all == self.streams@,
                keep == (|s: Stream| joined(self@.links, s.id, sink)),
                streams_in(list@) == all.take(i as int).filter(keep),
        {
            let stream = &self.streams[i];
            let ghost so_far = streams_in(list@);
            if self.is_joined(stream.id, sink) {
                list.push(stream);
                proof {
                    assert(streams_in(list@) =~= so_far.push(*stream));
                }
            }
            proof {
                lists::filter_step(all, i as int, keep);
            }
        }
        proof {
            assert(all.take(all.len() as int) =~= all);
        }
        list
    }

    /// Peak level of a node's two channels, or silence if it is not metered.
    pub fn level_of(&self, levels: &meters::Levels, node_name: &str) -> (level: (Single, Single))
        requires
            levels.wf(),
        ensures
            level == (match id_in(self@.devices, node_name@) {
                Some(id) => level_in(levels@, id),
                None => silence(),
            }),
    {
        match self.id_of(node_name) {
            Some(id) => self.level_of_id(levels, id),
            None => (Single { bits: 0 }, Single { bits: 0 }),
        }
    }

    /// Peak level of a node by its id.
    ///
    /// Applications are streams, not devices, so they are not found by name:
    /// their id is the one the row already carries.
    #[must_use]
    pub fn level_of_id(&self, levels: &meters::Levels, id: u32) -> (level: (Single, Single))
        requires
            levels.wf(),
        ensures
            level == level_in(levels@, id),
    {
        match levels.get(&id) {
            Some(level) => *level,
            None => (Single { bits: 0 }, Single { bits: 0 }),
        }
    }

    // -----------------------------------------------------------------
    // What to ask for

    /// Ask the backend to route, or unroute, one node into another.
    ///
    /// Fire-and-forget: the reply arrives as registry events, if at all.
    pub fn set_route(&self, source: u32, target: u32, enabled: bool) -> (command: Command)
        ensures
            command == (Command::SetRoute {
                route: Route { source, target, tap: links::main_tap() },
                enabled,
            }),
    {
        self.set_tapped_route(Route::new(source, target), enabled)
    }

    /// Route a specific pair of ports rather than a node's main output.
    ///
    /// What sends need: a strip's chain carries its main output and its FX
    /// sends on the same node, told apart only by which pair they are.
    pub fn set_tapped_route(&self, route: Route, enabled: bool) -> (command: Command)
        ensures
            command == (Command::SetRoute { route, enabled }),
    {
        Command::SetRoute { route, enabled }
    }

    /// Set a node's level from a fader, given as a linear amplitude, and how
    /// it is split between left and right.
    ///
    /// `muted` wins over the fader, so a muted strip is silent wherever its
    /// fader happens to sit.
    ///
    /// Nothing is asked where the node is not known. The caller uses that to
    /// decide whether to remember the value as applied: nodes appear
    /// asynchronously, so an early call can find nothing and must be retried
    /// rather than recorded as done.
    pub fn set_gain(
        &self,
        node_name: &str,
        linear: Single,
        muted: bool,
        balance: (Single, Single),
    ) -> (command: Option<Command>)
        ensures
            command == (match id_in(self@.devices, node_name@) {
                Some(node) => Some(
                    Command::SetVolume {
                        node,
                        amplitude: if muted {
                            Single { bits: 0 }
                        } else {
                            linear
                        },
                        balance,
                    },
                ),
                None => None,
            }),
    {
        match self.id_of(node_name) {
            Some(node) => Some(
                Command::SetVolume { node, amplitude: amplitude_of(linear, muted), balance },
            ),
            None => None,
        }
    }

    /// Set an application stream's own volume and mute.
    ///
    /// No panning: an application row has a level and a mute and nothing
    /// else.
    ///
    /// By node id rather than by name: the row already carries the id the
    /// registry gave it, and two copies of the same program are two streams
    /// sharing one name.
    pub fn set_app(&self, node: u32, volume: Single, muted: bool) -> (commands: Vec<Command>)
        ensures
            commands@ == seq![
                Command::SetVolume {
                    node,
                    amplitude: volume,
                    balance: (Single { bits: ONE }, Single { bits: ONE }),
                },
                Command::SetMute { node, muted },
            ],
    {
        let mut commands: Vec<Command> = Vec::new();
        commands.push(
            Command::SetVolume {
                node,
                amplitude: volume,
                balance: (Single { bits: ONE }, Single { bits: ONE }),
            },
        );
        commands.push(Command::SetMute { node, muted });
        commands
    }

    /// Fold a node's routes down to mono.
    ///
    /// Nothing is asked where the node is not known, on the same terms as
    /// [`Self::set_gain`]: an unknown node must be retried, not recorded.
    pub fn set_mono(&self, node_name: &str, end: End, mono: bool) -> (command: Option<Command>)
        ensures
            command == (match id_in(self@.devices, node_name@) {
                Some(node) => Some(Command::SetMono { node, end, mono }),
                None => None,
            }),
    {
        match self.id_of(node_name) {
            Some(node) => Some(Command::SetMono { node, end, mono }),
            None => None,
        }
    }

    /// Nudge the backend to complete any route still waiting on ports.
    ///
    /// Routes are normally completed as ports arrive, but a route asked for
    /// in the gap between a node appearing and its ports appearing has no
    /// later event to ride: if every port is already there, nothing more will
    /// arrive to trigger the retry. This is the periodic backstop.
    pub fn retry_routes(&self) -> (command: Command)
        ensures
            command == Command::RetryRoutes,
    {
        Command::RetryRoutes
    }

    /// Start recording nodes to files. No takes at all stop whatever is
    /// running.
    ///
    /// Asked to record something that is not there, nothing is started at
    /// all, rather than silently starting the rest and calling it a take.
    pub fn record(&self, takes: Vec<(String, String)>, rate: u32) -> (command: Option<Command>)
        ensures
            command == (if forall|i: int|
                0 <= i < takes@.len() ==> id_in(self@.devices, (#[trigger] takes@[i]).0@) is Some {
                Some(Command::Record { takes, rate })
            } else {
                None
            }),
    {
        for i in 0..takes.len()
            invariant
                forall|j: int|
                    0 <= j < i ==> id_in(self@.devices, (#[trigger] takes@[j]).0@) is Some,
        {
            if self.id_of(takes[i].0.as_str()).is_none() {
                return None;
            }
        }
        Some(Command::Record { takes, rate })
    }

    /// Set named controls on a chain node.
    ///
    /// Names are `<filter>:<control>` as the graph declared them. Note that a
    /// chain only applies these while it is running; an idle one accepts the
    /// message and ignores it.
    pub fn set_controls(&self, node_name: &str, controls: Vec<(String, Single)>) -> (command:
        Option<Command>)
        ensures
            command == (match id_in(self@.devices, node_name@) {
                Some(node) => Some(Command::SetControls { node, controls }),
                None => None,
            }),
    {
        match self.id_of(node_name) {
            Some(node) => Some(Command::SetControls { node, controls }),
            None => None,
        }
    }

    /// Remove our virtual devices and make them again.
    ///
    /// Use this rather than [`Backend::remove_devices`] followed by
    /// [`Backend::create_devices`]. Both of those are requests to the
    /// `PipeWire` thread rather than things that have happened when the
    /// call returns, so sending them in sequence is a race, and it is lost
    /// the obvious way: the devices go and do not come back. This does the
    /// pair on the thread that owns them, where the order holds.
    pub fn recreate_devices(&self) -> (command: Command)
        ensures
            command == Command::RecreateDevices,
    {
        Command::RecreateDevices
    }

    /// Ask the backend to create the virtual strips and buses.
    pub fn create_devices(&self) -> (command: Command)
        ensures
            command == Command::CreateDevices,
    {
        Command::CreateDevices
    }

    /// Ask the backend to tear them down again.
    pub fn remove_devices(&self) -> (command: Command)
        ensures
            command == Command::RemoveDevices,
    {
        Command::RemoveDevices
    }
}

/// Whether a strip or bus may be assigned to a device.
pub open spec fn may_be_assigned(d: Device, direction: Direction) -> bool {
    d.direction == direction && d.assignable && !sinks::owns(d.name@)
}

/// No level at all.
pub open spec fn silence() -> (Single, Single) {
    (Single { bits: 0 }, Single { bits: 0 })
}

/// A node's level, or silence if it is not metered.
pub open spec fn level_in(levels: Map<u32, (Single, Single)>, id: u32) -> (Single, Single) {
    if levels.contains_key(id) {
        levels[id]
    } else {
        silence()
    }
}

fn line_of_device(device: &Device) -> (line: String)
    ensures
        line@ == device_line(*device),
{
    let direction = match device.direction {
        Direction::Sink => "sink",
        Direction::Source => "source",
    };
    let mut line = "  ".to_owned();
    line.append(text::pad_right(direction, 6).as_str());
    line.append(" ");
    line.append(text::pad_left(text::number(device.id as u64).as_str(), 5).as_str());
    line.append("  ");
    line.append(text::pad_left(rate_of(device.rate).as_str(), 9).as_str());
    line.append(" ");
    line.append(text::pad_left(channels_of(device.channels).as_str(), 5).as_str());
    line.append("  ");
    line.append(device.name.as_str());
    line.append("  [");
    line.append(device.description.as_str());
    line.append("]");
    line
}

fn line_of_appeared(device: &Device) -> (line: String)
    ensures
        line@ == appeared_line(*device),
{
    let mut line = "device appeared: ".to_owned();
    line.append(device.description.as_str());
    line.append(" (");
    line.append(device.name.as_str());
    line.append(") id ");
    line.append(text::number(device.id as u64).as_str());
    line.append(" ");
    line.append(device.class.as_str());
    line.append(" ");
    line.append(rate_of(device.rate).as_str());
    line.append(" ");
    line.append(channels_of(device.channels).as_str());
    line
}

fn line_of_gone(device: &Device) -> (line: String)
    ensures
        line@ == gone_line(*device),
{
    text::cat5(
        "device went away: ",
        device.description.as_str(),
        " (",
        device.name.as_str(),
        ")",
    )
}

// ---------------------------------------------------------------------
// Laws

/// Announcing a device again with nothing new changes nothing.
pub proof fn announcing_twice_is_announcing_once(devices: Seq<Device>, device: Device)
    ensures
        with_device(with_device(devices, device), device) == with_device(devices, device),
        has_device(with_device(devices, device), device.id),
        with_device(devices, device).contains(device),
{
    let once = with_device(devices, device);
    if has_device(devices, device.id) {
        let i = choose|i: int| 0 <= i < devices.len() && (#[trigger] devices[i]).id == device.id;
        assert(once[i] == device);
    } else {
        assert(once[devices.len() as int] == device);
    }
    assert(with_device(once, device) =~= once) by {
        assert forall|i: int| 0 <= i < once.len() implies (#[trigger] once[i]).id != device.id
            || once[i] == device by {
            if !has_device(devices, device.id) && i < devices.len() {
                assert(devices[i].id != device.id);
            }
        }
    }
}

/// Whatever an id stood for, once it is removed nothing has it.
pub proof fn a_removed_id_is_gone(now: Snapshot, id: u32)
    ensures
        ({
            let after = step(now, Event::Removed(id));
            &&& !has_device(after.devices, id)
            &&& !has_stream(after.streams, id)
            &&& !has_link(after.links, id)
        }),
{
    let after = step(now, Event::Removed(id));
    assert forall|i: int| 0 <= i < after.devices.len() implies (#[trigger] after.devices[i]).id
        != id by {
        assert(after.devices.contains(after.devices[i]));
        lists::filter_contains(now.devices, |d: Device| d.id != id, after.devices[i]);
    }
    assert forall|i: int| 0 <= i < after.streams.len() implies (#[trigger] after.streams[i]).id
        != id by {
        assert(after.streams.contains(after.streams[i]));
        lists::filter_contains(now.streams, |s: Stream| s.id != id, after.streams[i]);
    }
    assert forall|i: int| 0 <= i < after.links.len() implies (#[trigger] after.links[i]).id
        != id by {
        assert(after.links.contains(after.links[i]));
        lists::filter_contains(now.links, |l: LinkInfo| l.id != id, after.links[i]);
    }
}

/// A dropped connection leaves the last picture standing.
pub proof fn a_disconnect_keeps_the_picture(now: Snapshot, why: String)
    ensures
        ({
            let after = step(now, Event::Disconnected(why));
            &&& after.devices == now.devices
            &&& after.streams == now.streams
            &&& after.links == now.links
            &&& !after.connected
            &&& after.error == Some(why)
        }),
{
}

/// A device is logged when it appears and not again while it is listed, and
/// once when it goes away.
pub proof fn comings_and_goings_are_logged_once(now: Snapshot, device: Device)
    requires
        distinct(now),
    ensures
        ({
            let there = step(now, Event::Added(device));
            &&& !has_device(now.devices, device.id) ==> tidings(now, Event::Added(device)) == seq![
                appeared_line(device),
            ]
            &&& tidings(there, Event::Added(device)) == Seq::<Seq<char>>::empty()
            &&& tidings(there, Event::Removed(device.id)) == seq![gone_line(device)]
            &&& tidings(step(there, Event::Removed(device.id)), Event::Removed(device.id))
                == Seq::<Seq<char>>::empty()
        }),
{
    let there = step(now, Event::Added(device));
    let gone = step(there, Event::Removed(device.id));
    let test = |d: Device| d.id == device.id;
    announcing_twice_is_announcing_once(now.devices, device);
    step_keeps_distinct(now, Event::Added(device));
    let at = there.devices.index_of(device);
    assert forall|j: int| 0 <= j < there.devices.len() && j != at implies !test(
        #[trigger] there.devices[j],
    ) by {
        if j < at {
            assert(there.devices[j].id != there.devices[at].id);
        } else {
            assert(there.devices[at].id != there.devices[j].id);
        }
    }
    lists::only_one_kept(there.devices, at, test);
    assert(tidings(there, Event::Removed(device.id)) =~= seq![gone_line(device)]);
    a_removed_id_is_gone(there, device.id);
    lists::filter_at(gone.devices, 0, test, true);
    assert(tidings(gone, Event::Removed(device.id)) =~= Seq::<Seq<char>>::empty());
}

/// The graph is logged once for each sweep that is reported. Otherwise all
/// that is logged is what appears and what goes away.
pub proof fn only_a_sweep_logs_the_graph(now: Snapshot, events: Seq<Event>)
    requires
        forall|i: int| 0 <= i < events.len() ==> !((#[trigger] events[i]) is Enumerated),
    ensures
        run(now, events).enumerated == now.enumerated,
        forall|k: int|
            0 <= k < logged(now, events).len() ==> is_coming_or_going(
                #[trigger] logged(now, events)[k],
            ),
        (forall|i: int|
            0 <= i < events.len() ==> !((#[trigger] events[i]) is Added) && !(
            events[i] is Removed)) ==> logged(now, events).len() == 0,
    decreases events.len(),
{
    if events.len() > 0 {
        let before = events.drop_last();
        let last = events.last();
        assert forall|i: int| 0 <= i < before.len() implies !((#[trigger] before[i]) is Enumerated) by {
            assert(before[i] == events[i]);
        }
        only_a_sweep_logs_the_graph(now, before);
        assert(events[events.len() - 1] == last);
        let news = tidings(run(now, before), last);
        assert forall|k: int| 0 <= k < news.len() implies is_coming_or_going(
            #[trigger] news[k],
        ) by {
            if let Event::Removed(id) = last {
                let d = run(now, before).devices.filter(|d: Device| d.id == id)[k];
                assert(news[k] == gone_line(d));
            } else if let Event::Added(d) = last {
                assert(news[k] == appeared_line(d));
            }
        }
        let was = logged(now, before);
        assert forall|k: int| 0 <= k < logged(now, events).len() implies is_coming_or_going(
            #[trigger] logged(now, events)[k],
        ) by {
            if k < was.len() {
                assert(logged(now, events)[k] == was[k]);
            } else {
                assert(logged(now, events)[k] == news[k - was.len()]);
            }
        }
        if forall|i: int|
            0 <= i < events.len() ==> !((#[trigger] events[i]) is Added) && !(
            events[i] is Removed) {
            assert forall|i: int| 0 <= i < before.len() implies !((#[trigger] before[i]) is Added)
                && !(before[i] is Removed) by {
                assert(before[i] == events[i]);
            }
        }
    }
}

/// Whether a line tells of a device that appeared or went away.
pub open spec fn is_coming_or_going(line: Seq<char>) -> bool {
    ||| exists|d: Device| line == #[trigger] appeared_line(d)
    ||| exists|d: Device| line == #[trigger] gone_line(d)
}

/// A device that is announced is listed afterwards in place of any with its
/// number. Every other device stays, and no other comes.
pub proof fn a_device_is_listed_by_its_number(devices: Seq<Device>, device: Device, other: Device)
    ensures
        with_device(devices, device).contains(device),
        other.id != device.id ==> with_device(devices, device).contains(other)
            == devices.contains(other),
        other.id == device.id && with_device(devices, device).contains(other) ==> other == device,
        with_device(devices, device).len() == devices.len() || with_device(devices, device).len()
            == devices.len() + 1,
{
    let after = with_device(devices, device);
    if has_device(devices, device.id) {
        let i = choose|i: int| 0 <= i < devices.len() && (#[trigger] devices[i]).id == device.id;
        assert(after[i] == device);
        if devices.contains(other) && other.id != device.id {
            assert(after[devices.index_of(other)] == other);
        }
        if after.contains(other) {
            let k = after.index_of(other);
            assert(devices[k].id == device.id ==> after[k] == device);
            assert(devices[k].id != device.id ==> after[k] == devices[k]);
        }
    } else {
        assert(after[after.len() - 1] == device);
        if devices.contains(other) {
            assert(after[devices.index_of(other)] == other);
        }
        if after.contains(other) && other != device {
            let k = after.index_of(other);
            assert(devices[k] == other);
        }
    }
}

/// A stream that is announced is listed afterwards in place of any with its
/// number. Every other stream stays, and no other comes.
pub proof fn a_stream_is_listed_by_its_number(streams: Seq<Stream>, stream: Stream, other: Stream)
    ensures
        with_stream(streams, stream).contains(stream),
        other.id != stream.id ==> with_stream(streams, stream).contains(other)
            == streams.contains(other),
        other.id == stream.id && with_stream(streams, stream).contains(other) ==> other == stream,
{
    let after = with_stream(streams, stream);
    if has_stream(streams, stream.id) {
        let i = choose|i: int| 0 <= i < streams.len() && (#[trigger] streams[i]).id == stream.id;
        assert(after[i] == stream);
        if streams.contains(other) && other.id != stream.id {
            assert(after[streams.index_of(other)] == other);
        }
        if after.contains(other) {
            let k = after.index_of(other);
            assert(streams[k].id == stream.id ==> after[k] == stream);
            assert(streams[k].id != stream.id ==> after[k] == streams[k]);
        }
    } else {
        assert(after[after.len() - 1] == stream);
        if streams.contains(other) {
            assert(after[streams.index_of(other)] == other);
        }
        if after.contains(other) && other != stream {
            let k = after.index_of(other);
            assert(streams[k] == other);
        }
    }
}

/// A link is listed once, as it was first announced.
pub proof fn a_link_is_listed_once(links: Seq<LinkInfo>, link: LinkInfo, other: LinkInfo)
    ensures
        with_link(links, link).contains(other) == (links.contains(other) || (other == link
            && forall|i: int| 0 <= i < links.len() ==> (#[trigger] links[i]).id != link.id)),
        has_link(with_link(links, link), link.id),
{
    let after = with_link(links, link);
    if has_link(links, link.id) {
        let i = choose|i: int| 0 <= i < links.len() && (#[trigger] links[i]).id == link.id;
        assert(after[i].id == link.id);
    } else {
        assert(after[after.len() - 1] == link);
        if links.contains(other) {
            assert(after[links.index_of(other)] == other);
        }
        if after.contains(other) && other != link {
            assert(links[after.index_of(other)] == other);
        }
    }
}

/// A format fills in what it knows of the device with its number, and leaves
/// the rest of it, and every other device, as it was.
pub proof fn a_format_fills_in_one_device(
    devices: Seq<Device>,
    id: u32,
    rate: Option<u32>,
    channels: Option<u32>,
    i: int,
)
    requires
        0 <= i < devices.len(),
    ensures
        ({
            let was = devices[i];
            let is = with_format(devices, id, rate, channels)[i];
            &&& with_format(devices, id, rate, channels).len() == devices.len()
            &&& was.id != id ==> is == was
            &&& was.id == id && rate is Some ==> is.rate == rate
            &&& rate is None ==> is.rate == was.rate
            &&& was.id == id && channels is Some ==> is.channels == channels
            &&& channels is None ==> is.channels == was.channels
            &&& is.id == was.id
            &&& is.name == was.name
            &&& is.description == was.description
            &&& is.direction == was.direction
            &&& is.class == was.class
            &&& is.assignable == was.assignable
            &&& is.kind == was.kind
        }),
{
}

/// Each event changes the one thing that it is about. A removal takes what
/// has its number out of all three lists and leaves everything else; the end
/// of the sweep is noted; and only a disconnection ends the connection or
/// says why.
pub proof fn an_event_changes_what_it_is_about(
    now: Snapshot,
    event: Event,
    device: Device,
    stream: Stream,
    link: LinkInfo,
)
    ensures
        ({
            let after = step(now, event);
            &&& event matches Event::Added(d) ==> after.devices == with_device(now.devices, d)
            &&& event matches Event::StreamAdded(s) ==> after.streams == with_stream(now.streams, s)
            &&& event matches Event::LinkAdded(l) ==> after.links == with_link(now.links, l)
            &&& event matches Event::Format { id, rate, channels } ==> after.devices == with_format(
                now.devices,
                id,
                rate,
                channels,
            )
            &&& event matches Event::Removed(id) ==> {
                &&& after.devices.contains(device) == (now.devices.contains(device) && device.id
                    != id)
                &&& after.streams.contains(stream) == (now.streams.contains(stream) && stream.id
                    != id)
                &&& after.links.contains(link) == (now.links.contains(link) && link.id != id)
            }
            &&& !(event is Added) && !(event is Removed) && !(event is Format) ==> after.devices
                == now.devices
            &&& !(event is StreamAdded) && !(event is Removed) ==> after.streams == now.streams
            &&& !(event is LinkAdded) && !(event is Removed) ==> after.links == now.links
            &&& after.enumerated == (now.enumerated || event is Enumerated)
            &&& after.connected == (now.connected && !(event is Disconnected))
            &&& event matches Event::Disconnected(why) ==> after.error == Some(why)
            &&& !(event is Disconnected) ==> after.error == now.error
        }),
{
    if event is Removed {
        let id = event->Removed_0;
        lists::filter_contains(now.devices, |d: Device| d.id != id, device);
        lists::filter_contains(now.streams, |s: Stream| s.id != id, stream);
        lists::filter_contains(now.links, |l: LinkInfo| l.id != id, link);
    }
}

/// Events are taken one after the other, and each is logged against the
/// picture that the ones before it left, the end of a sweep by the whole of
/// it.
pub proof fn events_are_taken_in_order(now: Snapshot, events: Seq<Event>, event: Event)
    ensures
        run(now, Seq::empty()) == now,
        run(now, events.push(event)) == step(run(now, events), event),
        logged(now, Seq::empty()).len() == 0,
        tidings(now, Event::Enumerated) == dump(now),
        logged(now, events.push(event)) == logged(now, events) + tidings(run(now, events), event),
{
    assert(events.push(event).drop_last() =~= events);
}

/// A polled list of devices is the same devices, in the order of what they
/// are called.
pub proof fn devices_go_by_description(devices: Seq<Device>, device: Device, i: int, j: int)
    ensures
        ({
            let list = order::sorted(devices, by_description(devices));
            &&& list.len() == devices.len()
            &&& list.contains(device) == devices.contains(device)
            &&& 0 <= i < j < list.len() ==> !text::before(
                list[j].description@,
                list[i].description@,
            )
        }),
{
    let ranks = by_description(devices);
    let list = order::sorted(devices, ranks);
    order::sorting_keeps_everything(devices, ranks, device);
    if 0 <= i < j < list.len() {
        in_order_by_text(devices, ranks, i, j);
    }
}

/// Sorting by a text leaves no text behind a later one.
proof fn in_order_by_text(devices: Seq<Device>, ranks: Seq<order::Rank>, i: int, j: int)
    requires
        ranks.len() == devices.len(),
        forall|k: int| 0 <= k < ranks.len() ==> !(#[trigger] ranks[k]).late,
        0 <= i < j < devices.len(),
    ensures
        ({
            let places = order::order_of(ranks, devices.len());
            let list = order::sorted(devices, ranks);
            &&& 0 <= places[i] < devices.len() && 0 <= places[j] < devices.len()
            &&& list[i] == devices[places[i]] && list[j] == devices[places[j]]
            &&& !text::before(ranks[places[j]].text, ranks[places[i]].text)
        }),
{
    let places = order::order_of(ranks, devices.len());
    order::order_of_is_order(ranks, devices.len());
    let a = ranks[places[i]].text;
    let b = ranks[places[j]].text;
    assert(order::belongs_before(ranks, places[i], places[j]));
    text::before_is_irreflexive(a);
    if text::before(a, b) && text::before(b, a) {
        text::before_is_transitive(a, b, a);
    }
}

/// A device is found by its name, the first of them where several have it,
/// and called by its name where it is known by number; a number nobody has is
/// shown as it is.
pub proof fn the_first_of_a_name_is_found(devices: Seq<Device>, name: Seq<char>, id: u32)
    ensures
        match id_in(devices, name) {
            Some(n) => exists|i: int|
                0 <= i < devices.len() && (#[trigger] devices[i]).id == n && devices[i].name@
                    == name && forall|j: int| 0 <= j < i ==> (#[trigger] devices[j]).name@ != name,
            None => forall|j: int| 0 <= j < devices.len() ==> (#[trigger] devices[j]).name@ != name,
        },
        !has_device(devices, id) ==> called(devices, id) == text::decimal(id as nat),
        has_device(devices, id) ==> exists|i: int|
            0 <= i < devices.len() && (#[trigger] devices[i]).id == id && devices[i].name@
                == called(devices, id),
    decreases devices.len(),
{
    if devices.len() > 0 {
        let rest = devices.skip(1);
        the_first_of_a_name_is_found(rest, name, id);
        assert forall|j: int| 1 <= j < devices.len() implies #[trigger] devices[j] == rest[j
            - 1] by {}
        if devices[0].name@ != name {
            match id_in(rest, name) {
                Some(n) => {
                    let i = choose|i: int|
                        0 <= i < rest.len() && (#[trigger] rest[i]).id == n && rest[i].name@ == name
                            && forall|j: int| 0 <= j < i ==> (#[trigger] rest[j]).name@ != name;
                    assert(devices[i + 1].id == n && devices[i + 1].name@ == name);
                    assert forall|j: int| 0 <= j < i + 1 implies (#[trigger] devices[j]).name@
                        != name by {
                        if j > 0 {
                            assert(devices[j] == rest[j - 1]);
                        }
                    }
                },
                None => {},
            }
        } else {
            assert(devices[0].id == devices[0].id);
        }
        if devices[0].id == id {
            assert(devices[0].name@ == called(devices, id));
        } else {
            if has_device(rest, id) {
                let i = choose|i: int|
                    0 <= i < rest.len() && (#[trigger] rest[i]).id == id && rest[i].name@ == called(
                        rest,
                        id,
                    );
                assert(devices[i + 1].id == id && devices[i + 1].name@ == called(devices, id));
            }
            if has_device(devices, id) {
                let i = choose|i: int|
                    0 <= i < devices.len() && (#[trigger] devices[i]).id == id;
                assert(rest[i - 1].id == id);
            }
        }
    }
}

/// An application plays into a sink exactly where some link runs from it to
/// the sink, and is listed once however many do.
pub proof fn an_application_plays_where_it_is_linked(now: Snapshot, sink: u32, stream: Stream)
    requires
        distinct(now),
    ensures
        ({
            let list = now.streams.filter(|s: Stream| joined(now.links, s.id, sink));
            &&& list.contains(stream) == (now.streams.contains(stream) && exists|i: int|
                0 <= i < now.links.len() && (#[trigger] now.links[i]).output_node == stream.id
                    && now.links[i].input_node == sink)
            &&& list.no_duplicates()
        }),
{
    let keep = |s: Stream| joined(now.links, s.id, sink);
    lists::filter_contains(now.streams, keep, stream);
    assert(now.streams.no_duplicates()) by {
        assert forall|i: int, j: int|
            0 <= i < now.streams.len() && 0 <= j < now.streams.len() && i
                != j implies now.streams[i] != now.streams[j] by {
            if i < j {
                assert(now.streams[i].id != now.streams[j].id);
            } else {
                assert(now.streams[j].id != now.streams[i].id);
            }
        }
    }
    lists::filter_no_duplicates(now.streams, keep);
}

/// What is offered for assignment faces the right way, can be assigned and
/// is none of ours. A node's level is what was measured of it, and silence
/// on both sides where nothing was.
pub proof fn ours_are_never_offered(
    devices: Seq<Device>,
    direction: Direction,
    device: Device,
    levels: Map<u32, (Single, Single)>,
    id: u32,
)
    ensures
        devices.filter(|d: Device| may_be_assigned(d, direction)).contains(device) == (
        devices.contains(device) && device.direction == direction && device.assignable
            && !sinks::names(sinks::specs()).contains(device.name@)),
        levels.contains_key(id) ==> level_in(levels, id) == levels[id],
        !levels.contains_key(id) ==> level_in(levels, id).0.bits == 0 && level_in(levels, id).1.bits
            == 0,
{
    lists::filter_contains(devices, |d: Device| may_be_assigned(d, direction), device);
    sinks::ours_are_filed_as_sinks(device.name@, device.class@);
}

/// In the log, a device's line shows which way it faces, its number, its
/// rate and its channels in columns, and its name always at the same place,
/// with its title in brackets behind it.
pub proof fn names_line_up(d: Device)
    requires
        text::decimal(d.id as nat).len() <= 5,
        shown_rate(d.rate).len() <= 9,
        shown_channels(d.channels).len() <= 5,
    ensures
        ({
            let line = device_line(d);
            &&& line.skip(33) == d.name@ + "  ["@ + d.description@ + "]"@
            &&& line.subrange(2, 6) == (if d.direction == Direction::Sink {
                "sink"@
            } else {
                "sour"@
            })
            &&& line.subrange(14 - text::decimal(d.id as nat).len(), 14) == text::decimal(
                d.id as nat,
            )
            &&& line.subrange(25 - shown_rate(d.rate).len(), 25) == shown_rate(d.rate)
            &&& line.subrange(31 - shown_channels(d.channels).len(), 31) == shown_channels(
                d.channels,
            )
            &&& d.rate matches Some(n) ==> shown_rate(d.rate) == text::decimal(n as nat) + " Hz"@
            &&& d.rate is None ==> shown_rate(d.rate) == "-"@
            &&& d.channels matches Some(n) ==> shown_channels(d.channels) == text::decimal(n as nat)
                + " ch"@
            &&& d.channels is None ==> shown_channels(d.channels) == "-"@
        }),
{
    reveal_strlit("  ");
    reveal_strlit(" ");
    reveal_strlit("sink");
    reveal_strlit("source");
    reveal_strlit("sour");
    let line = device_line(d);
    let id = text::decimal(d.id as nat);
    let rate = shown_rate(d.rate);
    let channels = shown_channels(d.channels);
    let way = match d.direction {
        Direction::Sink => "sink"@,
        Direction::Source => "source"@,
    };
    text::padding_fills_up_with_blanks(way, 6, 0);
    text::padding_fills_up_with_blanks(id, 5, 0);
    text::padding_fills_up_with_blanks(rate, 9, 0);
    text::padding_fills_up_with_blanks(channels, 5, 0);
    let a = text::padded_right(way, 6);
    let b = text::padded_left(id, 5);
    let c = text::padded_left(rate, 9);
    let e = text::padded_left(channels, 5);
    let front = "  "@ + a + " "@ + b + "  "@ + c + " "@ + e + "  "@;
    assert(front.len() == 33);
    assert(line =~= front + (d.name@ + "  ["@ + d.description@ + "]"@));
    assert(line.skip(33) =~= d.name@ + "  ["@ + d.description@ + "]"@);
    assert(line.subrange(2, 8) =~= a);
    assert(line.subrange(9, 14) =~= b);
    assert(line.subrange(16, 25) =~= c);
    assert(line.subrange(26, 31) =~= e);
    assert(line.subrange(2, 6) =~= a.subrange(0, 4));
    assert(a.subrange(0, way.len() as int) == way);
    assert(a.subrange(0, 4) =~= way.subrange(0, 4));
    assert(way.subrange(0, 4) =~= if d.direction == Direction::Sink {
        "sink"@
    } else {
        "sour"@
    });
    assert(line.subrange(14 - id.len(), 14) =~= b.subrange(5 - id.len(), 5));
    assert(line.subrange(25 - rate.len(), 25) =~= c.subrange(9 - rate.len(), 9));
    assert(line.subrange(31 - channels.len(), 31) =~= e.subrange(5 - channels.len(), 5));
}

/// The graph is logged whole: a heading with how many devices there are, a
/// line for each of them by name, a heading with how many streams and links
/// there are, and a line for each of those, a link's by the names of what it
/// joins.
pub proof fn the_whole_graph_is_logged(now: Snapshot, device: Device, i: int, j: int, k: int)
    ensures
        ({
            let page = dump(now);
            let n = now.devices.len() as int;
            let m = now.streams.len() as int;
            let shown = order::sorted(now.devices, by_name(now.devices));
            &&& page.len() == 2 + n + m + now.links.len()
            &&& page[0] == "--- graph at startup: "@ + text::decimal(n as nat) + " devices ---"@
            &&& shown.contains(device) == now.devices.contains(device)
            &&& 0 <= i < n ==> page[1 + i] == device_line(shown[i])
            &&& 0 <= i < j < n ==> !text::before(shown[j].name@, shown[i].name@)
            &&& page[1 + n] == "--- "@ + text::decimal(m as nat) + " application streams, "@
                + text::decimal(now.links.len()) + " links ---"@
            &&& 0 <= k < m ==> page[2 + n + k] == "  stream "@ + text::padded_left(
                text::decimal(now.streams[k].id as nat),
                5,
            ) + "  "@ + now.streams[k].name@
            &&& 0 <= k < now.links.len() ==> page[2 + n + m + k] == "  link  "@ + called(
                now.devices,
                now.links[k].output_node,
            ) + " -> "@ + called(now.devices, now.links[k].input_node)
        }),
{
    let page = dump(now);
    let n = now.devices.len() as int;
    let m = now.streams.len() as int;
    let ranks = by_name(now.devices);
    let shown = order::sorted(now.devices, ranks);
    let first = shown.map_values(|d: Device| device_line(d));
    let second = now.streams.map_values(|s: Stream| stream_line(s));
    let third = now.links.map_values(|l: LinkInfo| link_line(now.devices, l));
    order::sorting_keeps_everything(now.devices, ranks, device);
    if 0 <= i < n {
        assert(page[1 + i] == first[i]);
    }
    if 0 <= i < j < n {
        in_order_by_text(now.devices, ranks, i, j);
    }
    if 0 <= k < m {
        assert(page[2 + n + k] == second[k]);
    }
    if 0 <= k < now.links.len() {
        assert(page[2 + n + m + k] == third[k]);
    }
}

/// A device that comes is logged by all that is known of it, and one that
/// goes by its title and its name.
pub proof fn a_log_line_says_who_it_was(d: Device)
    ensures
        appeared_line(d) == "device appeared: "@ + (d.description@ + " ("@ + d.name@ + ")"@)
            + " id "@ + text::decimal(d.id as nat) + " "@ + d.class@ + " "@ + shown_rate(d.rate)
            + " "@ + shown_channels(d.channels),
        gone_line(d) == "device went away: "@ + (d.description@ + " ("@ + d.name@ + ")"@),
{
    reveal_strlit(") id ");
    reveal_strlit(")");
    reveal_strlit(" id ");
    assert(") id "@ =~= ")"@ + " id "@);
    assert(gone_line(d) =~= "device went away: "@ + (d.description@ + " ("@ + d.name@ + ")"@));
    let who = d.description@ + " ("@ + d.name@ + ")"@;
    let rest = text::decimal(d.id as nat) + " "@ + d.class@ + " "@ + shown_rate(d.rate) + " "@
        + shown_channels(d.channels);
    assert(appeared_line(d) =~= "device appeared: "@ + d.description@ + " ("@ + d.name@ + ") id "@
        + rest);
    assert("device appeared: "@ + who + " id "@ + text::decimal(d.id as nat) + " "@ + d.class@
        + " "@ + shown_rate(d.rate) + " "@ + shown_channels(d.channels) =~= "device appeared: "@
        + who + " id "@ + rest);
    assert("device appeared: "@ + d.description@ + " ("@ + d.name@ + ") id "@ + rest
        =~= "device appeared: "@ + who + " id "@ + rest);
}

/// Mute is silence whatever the fader says, and without it the fader is
/// what counts. A node is turned by its number, its balance untouched, and
/// one nobody has is not turned at all.
pub proof fn mute_wins_over_the_fader(
    backend: Backend,
    name: &str,
    linear: Single,
    muted: bool,
    balance: (Single, Single),
    amplitude: Single,
    command: Option<Command>,
)
    requires
        call_ensures(amplitude_of, (linear, muted), amplitude),
        call_ensures(Backend::set_gain, (&backend, name, linear, muted, balance), command),
    ensures
        muted ==> amplitude.bits == 0,
        !muted ==> amplitude == linear,
        command is Some == (id_in(backend@.devices, name@) is Some),
        command matches Some(c) ==> c == (Command::SetVolume {
            node: id_in(backend@.devices, name@)->Some_0,
            amplitude,
            balance,
        }),
{
}

/// An application's level is set as it is, on both sides alike, and its mute
/// is a matter of its own, so that it comes back at the level it had.
pub proof fn an_application_keeps_its_level(
    backend: Backend,
    node: u32,
    volume: Single,
    muted: bool,
    commands: Vec<Command>,
)
    requires
        call_ensures(Backend::set_app, (&backend, node, volume, muted), commands),
    ensures
        commands@.len() == 2,
        commands@[0] == (Command::SetVolume {
            node,
            amplitude: volume,
            balance: (Single { bits: 0x3f80_0000 }, Single { bits: 0x3f80_0000 }),
        }),
        commands@[1] == (Command::SetMute { node, muted }),
{
}

/// Takes are recorded only where every one of their nodes is known, and then
/// all as they were asked for.
pub proof fn all_takes_are_recorded_or_none(
    backend: Backend,
    takes: Vec<(String, String)>,
    rate: u32,
    i: int,
    command: Option<Command>,
)
    requires
        call_ensures(Backend::record, (&backend, takes, rate), command),
    ensures
        0 <= i < takes@.len() && id_in(backend@.devices, takes@[i].0@) is None ==> command is None,
        takes@.len() == 0 ==> command is Some,
        command matches Some(c) ==> c == (Command::Record { takes, rate }),
        (forall|k: int|
            0 <= k < takes@.len() ==> id_in(backend@.devices, (#[trigger] takes@[k]).0@) is Some)
            ==> command is Some,
{
    if 0 <= i < takes@.len() {
        assert(takes@[i] == takes@[i]);
    }
}

/// What is asked of a node by name is asked of the first device that has it.
pub proof fn a_name_is_asked_by_its_number(
    backend: Backend,
    name: &str,
    end: End,
    mono: bool,
    controls: Vec<(String, Single)>,
    id: Option<u32>,
    fold: Option<Command>,
    write: Option<Command>,
)
    requires
        call_ensures(Backend::id_of, (&backend, name), id),
        call_ensures(Backend::set_mono, (&backend, name, end, mono), fold),
        call_ensures(Backend::set_controls, (&backend, name, controls), write),
    ensures
        id is None ==> fold is None && write is None,
        id matches Some(node) ==> fold == Some(Command::SetMono { node, end, mono }) && write
            == Some(Command::SetControls { node, controls }),
{
}

/// A route between two nodes is the one between their first pairs.
pub proof fn a_plain_route_takes_the_first_pairs(
    backend: Backend,
    source: u32,
    target: u32,
    enabled: bool,
    command: Command,
)
    requires
        call_ensures(Backend::set_route, (&backend, source, target, enabled), command),
    ensures
        command matches Command::SetRoute { route, enabled: e } && e == enabled && route.source
            == source && route.target == target && route.tap.source_pair == 0
            && route.tap.target_pair == 0,
{
}

/// A link counts once where it ends and once where it begins, and a node
/// with none has none either way.
pub proof fn links_are_counted_at_their_ends(
    backend: Backend,
    node: u32,
    link: LinkInfo,
    into: usize,
    from: usize,
)
    requires
        call_ensures(Backend::links_into, (&backend, node), into),
        call_ensures(Backend::links_from, (&backend, node), from),
    ensures
        backend@.links.contains(link) && link.input_node == node ==> into > 0,
        backend@.links.contains(link) && link.output_node == node ==> from > 0,
        into > 0 ==> exists|l: LinkInfo| #[trigger]
            backend@.links.contains(l) && l.input_node == node,
        from > 0 ==> exists|l: LinkInfo| #[trigger]
            backend@.links.contains(l) && l.output_node == node,
{
    let ends = |l: LinkInfo| l.input_node == node;
    let begins = |l: LinkInfo| l.output_node == node;
    lists::filter_contains(backend@.links, ends, link);
    lists::filter_contains(backend@.links, begins, link);
    if into > 0 {
        let l = backend@.links.filter(ends)[0];
        assert(backend@.links.filter(ends).contains(l));
        lists::filter_contains(backend@.links, ends, l);
    }
    if from > 0 {
        let l = backend@.links.filter(begins)[0];
        assert(backend@.links.filter(begins).contains(l));
        lists::filter_contains(backend@.links, begins, l);
    }
}

/// Every device is listed the way it faces, and only those that are none of
/// our chains and none of ours are offered.
pub proof fn devices_are_listed_the_way_they_face(
    backend: Backend,
    direction: Direction,
    device: Device,
    all: Vec<&Device>,
    offered: Vec<&Device>,
)
    requires
        call_ensures(Backend::devices, (&backend, direction), all),
        call_ensures(Backend::assignable, (&backend, direction), offered),
    ensures
        devices_in(all@).contains(device) == (backend@.devices.contains(device) && device.direction
            == direction),
        devices_in(offered@).contains(device) == (devices_in(all@).contains(device)
            && device.assignable && !sinks::names(sinks::specs()).contains(device.name@)),
{
    lists::filter_contains(backend@.devices, |d: Device| d.direction == direction, device);
    ours_are_never_offered(backend@.devices, direction, device, Map::empty(), 0);
}

/// The applications that play into a sink are those with a link to the first
/// device of its name, and a sink nobody has is played into by none.
pub proof fn applications_are_found_by_the_sinks_name(
    backend: Backend,
    sink: &str,
    stream: Stream,
    id: Option<u32>,
    list: Vec<&Stream>,
)
    requires
        backend.wf(),
        call_ensures(Backend::id_of, (&backend, sink), id),
        call_ensures(Backend::apps_playing_into, (&backend, sink), list),
    ensures
        id is None ==> list@.len() == 0,
        id matches Some(n) ==> streams_in(list@).contains(stream) == (backend@.streams.contains(
            stream,
        ) && exists|i: int|
            0 <= i < backend@.links.len() && (#[trigger] backend@.links[i]).output_node == stream.id
                && backend@.links[i].input_node == n),
{
    if id is Some {
        an_application_plays_where_it_is_linked(backend@, id->Some_0, stream);
    } else {
        assert(streams_in(list@).len() == list@.len());
    }
}

/// A node's level is found by the first device of its name, by number as it
/// was measured, and is silence for a name nobody has.
pub proof fn a_level_is_found_by_name(
    backend: Backend,
    levels: meters::Levels,
    name: &str,
    id: Option<u32>,
    level: (Single, Single),
)
    requires
        levels.wf(),
        call_ensures(Backend::id_of, (&backend, name), id),
        call_ensures(Backend::level_of, (&backend, &levels, name), level),
    ensures
        id is None ==> level.0.bits == 0 && level.1.bits == 0,
        id matches Some(n) ==> (levels@.contains_key(n) ==> level == levels@[n]),
        id matches Some(n) ==> (!levels@.contains_key(n) ==> level.0.bits == 0 && level.1.bits == 0),
{
}

} // verus!
