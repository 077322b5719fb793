//! Reading a `PipeWire` global and deciding what it is to us.
//!
//! Apart from `nodes` because it is the one part with no side effects:
//! given a registry object it answers with a `Device`, a `Stream`, a
//! `LinkInfo`, a `Port` or nothing at all.

use vstd::prelude::*;
use vstd::slice::slice_subrange;

use crate::lists;
use crate::props;
use crate::text;

use super::eq;
use super::links::{Port, PortDirection};
use super::nodes::{Device, DeviceText, Direction, Kind, LinkInfo, Stream, StreamText};

verus! {

/// Something in the registry: its id and its properties, where it has any.
#[derive(Debug)]
pub struct Global {
    pub id: u32,
    pub props: Option<Vec<(String, String)>>,
}

/// The properties of something, as the contracts see them.
pub type Properties = Seq<(Seq<char>, Seq<char>)>;

impl Global {
    /// The properties it has.
    pub open spec fn properties(&self) -> Option<Properties> {
        match self.props {
            Some(list) => Some(props::pairs(list@)),
            None => None,
        }
    }
}

/// A property read as a number.
pub open spec fn number_of(list: Properties, key: Seq<char>) -> Option<u32> {
    match props::value_of(list, key) {
        Some(v) => number_in(v),
        None => None,
    }
}

/// A text read as a number.
pub open spec fn number_in(v: Seq<char>) -> Option<u32> {
    match text::parsed(v, u32::MAX as nat) {
        Some(n) => Some(n as u32),
        None => None,
    }
}

/// What follows the first slash of a text.
pub open spec fn after_slash(v: Seq<char>) -> Option<Seq<char>> {
    if text::up_to(v, '/') < v.len() {
        Some(v.skip(text::up_to(v, '/') + 1))
    } else {
        None
    }
}

/// A node's sample rate.
pub open spec fn rate(list: Properties) -> Option<u32> {
    if number_of(list, "audio.rate"@) is Some {
        number_of(list, "audio.rate"@)
    } else if number_of(list, "clock.rate"@) is Some {
        number_of(list, "clock.rate"@)
    } else {
        match props::value_of(list, "node.rate"@) {
            Some(v) => match after_slash(v) {
                Some(rest) => number_in(rest),
                None => None,
            },
            None => None,
        }
    }
}

/// How many channels a channel map lists.
pub open spec fn listed_channels(map: Seq<char>) -> nat {
    text::pieces(map, ',').filter(|p: Seq<char>| text::trimmed(p, text::Trim::Space).len() > 0).len()
}

/// A node's channel count.
pub open spec fn channels(list: Properties) -> Option<u32> {
    if number_of(list, "audio.channels"@) is Some {
        number_of(list, "audio.channels"@)
    } else {
        match props::value_of(list, "audio.position"@) {
            Some(map) => if 0 < listed_channels(map) <= u32::MAX {
                Some(listed_channels(map) as u32)
            } else {
                None
            },
            None => None,
        }
    }
}

/// Whether a node has a card behind it.
pub open spec fn kind(list: Properties) -> Kind {
    let api = props::value_of(list, "device.api"@);
    if (api is Some && api->Some_0.len() > 0) || props::value_of(list, "device.id"@) is Some {
        Kind::Physical
    } else {
        Kind::Virtual
    }
}

/// Whether the node is one of our chains' ends.
pub open spec fn is_ours(list: Properties) -> bool {
    match props::value_of(list, "node.name"@) {
        Some(name) => eq::is_endpoint(name),
        None => false,
    }
}

/// Which way a node of a class faces, if it is one the mixer deals in. A
/// stream is one only where it is an end of a chain of ours.
pub open spec fn direction(class: Seq<char>, ours: bool) -> Option<Direction> {
    if class == "Audio/Sink"@ {
        Some(Direction::Sink)
    } else if class == "Audio/Source"@ {
        Some(Direction::Source)
    } else if class == "Stream/Input/Audio"@ && ours {
        Some(Direction::Sink)
    } else if class == "Stream/Output/Audio"@ && ours {
        Some(Direction::Source)
    } else {
        None
    }
}

/// The first of two that is there.
pub open spec fn or_else<T>(a: Option<T>, b: Option<T>) -> Option<T> {
    if a is Some {
        a
    } else {
        b
    }
}

/// The device that something with these properties is.
pub open spec fn device(id: u32, list: Properties) -> Option<DeviceText> {
    let class = props::value_of(list, "media.class"@);
    let name = props::value_of(list, "node.name"@);
    if class is None || name is None || direction(class->Some_0, is_ours(list)) is None {
        None
    } else {
        let shown = or_else(
            props::value_of(list, "node.description"@),
            or_else(props::value_of(list, "node.nick"@), name),
        );
        Some(
            DeviceText {
                id,
                name: name->Some_0,
                description: shown->Some_0,
                direction: direction(class->Some_0, is_ours(list))->Some_0,
                class: class->Some_0,
                rate: rate(list),
                channels: channels(list),
                assignable: !is_ours(list),
                kind: kind(list),
            },
        )
    }
}

/// The application's stream that something with these properties is.
pub open spec fn stream(id: u32, list: Properties) -> Option<StreamText> {
    let node = props::value_of(list, "node.name"@);
    let shown = or_else(
        props::value_of(list, "application.name"@),
        or_else(props::value_of(list, "node.description"@), node),
    );
    if node is Some && text::occurs(node->Some_0, "pipemeter"@) {
        None
    } else if props::value_of(list, "media.class"@) != Some("Stream/Output/Audio"@) {
        None
    } else if shown is None {
        None
    } else {
        Some(
            StreamText {
                id,
                name: shown->Some_0,
                node_name: match node {
                    Some(name) => name,
                    None => seq![],
                },
            },
        )
    }
}

/// The link that something with these properties is.
pub open spec fn link(id: u32, list: Properties) -> Option<LinkInfo> {
    let from = number_of(list, "link.output.node"@);
    let to = number_of(list, "link.input.node"@);
    if from is Some && to is Some {
        Some(LinkInfo { id, output_node: from->Some_0, input_node: to->Some_0 })
    } else {
        None
    }
}

/// A port as the contracts see it.
pub struct PortText {
    pub id: u32,
    pub node_id: u32,
    pub direction: PortDirection,
    pub channel: Seq<char>,
    pub slot: u32,
}

/// A port's text.
pub open spec fn port_text(p: Port) -> PortText {
    PortText {
        id: p.id,
        node_id: p.node_id,
        direction: p.direction,
        channel: p.channel@,
        slot: p.slot,
    }
}

/// Which way a port faces.
pub open spec fn facing(list: Properties) -> Option<PortDirection> {
    match props::value_of(list, "port.direction"@) {
        Some(v) => if v == "in"@ {
            Some(PortDirection::In)
        } else if v == "out"@ {
            Some(PortDirection::Out)
        } else {
            None
        },
        None => None,
    }
}

/// The port that something with these properties is.
pub open spec fn port(id: u32, list: Properties) -> Option<PortText> {
    let node = number_of(list, "node.id"@);
    if facing(list) is Some && node is Some {
        Some(
            PortText {
                id,
                node_id: node->Some_0,
                direction: facing(list)->Some_0,
                channel: match props::value_of(list, "audio.channel"@) {
                    Some(v) => v,
                    None => seq![],
                },
                slot: match number_of(list, "port.id"@) {
                    Some(n) => n,
                    None => 0,
                },
            },
        )
    } else {
        None
    }
}

fn read_number(v: &String) -> (n: Option<u32>)
    ensures
        n == number_in(v@),
{
    let chars = text::chars_of(v.as_str());
    text::parse_u32(chars.as_slice())
}

fn get_number(list: &Vec<(String, String)>, key: &str) -> (n: Option<u32>)
    ensures
        n == number_of(props::pairs(list@), key@),
{
    match props::get(list, key) {
        Some(v) => read_number(v),
        None => None,
    }
}

/// A node's sample rate.
///
/// Most device nodes do not publish `audio.rate`; the rate they are running
/// at is in `clock.rate`, and ALSA nodes carry it as a fraction in
/// `node.rate` such as `1/48000`. Reading only the first left every row of
/// the settings window showing a dash.
pub fn node_rate(list: &Vec<(String, String)>) -> (r: Option<u32>)
    ensures
        r == rate(props::pairs(list@)),
{
    if let Some(rate) = get_number(list, "audio.rate") {
        return Some(rate);
    }
    if let Some(rate) = get_number(list, "clock.rate") {
        return Some(rate);
    }
    match props::get(list, "node.rate") {
        Some(v) => {
            let chars = text::chars_of(v.as_str());
            let at = text::position(chars.as_slice(), '/');
            if at < chars.len() {
                proof {
                    assert(chars@.subrange(at + 1, chars@.len() as int) =~= chars@.skip(at + 1));
                }
                text::parse_u32(slice_subrange(chars.as_slice(), at + 1, chars.len()))
            } else {
                None
            }
        },
        None => None,
    }
}

fn count_channels(map: &String) -> (n: usize)
    ensures
        n == listed_channels(map@),
{
    let chars = text::chars_of(map.as_str());
    let parts = text::split(chars.as_slice(), ',');
    let ghost all = text::pieces(map@, ',');
    let ghost keep = |p: Seq<char>| text::trimmed(p, text::Trim::Space).len() > 0;
    let mut n: usize = 0;
    proof {
        lists::filter_none(all, keep);
        assert(parts@.len() == text::views(parts@).len());
    }
    for i in 0..parts.len()
        invariant
            all == text::views(parts@),
            all.len() == parts@.len(),
            keep == (|p: Seq<char>| text::trimmed(p, text::Trim::Space).len() > 0),
            n <= i,
            n == all.take(i as int).filter(keep).len(),
    {
        if text::trim(parts[i].as_slice(), text::Trim::Space).len() > 0 {
            n = n + 1;
        }
        proof {
            assert(all[i as int] == parts@[i as int]@);
            lists::filter_step(all, i as int, keep);
        }
    }
    proof {
        assert(all.take(all.len() as int) =~= all);
    }
    n
}

/// A node's channel count.
///
/// `audio.channels` when it is there, otherwise counted from the channel
/// map in `audio.position`, which reads like `FL,FR`.
pub fn node_channels(list: &Vec<(String, String)>) -> (r: Option<u32>)
    ensures
        r == channels(props::pairs(list@)),
{
    if let Some(channels) = get_number(list, "audio.channels") {
        return Some(channels);
    }
    match props::get(list, "audio.position") {
        Some(map) => {
            let n = count_channels(map);
            if n > 0 && n as u64 <= u32::MAX as u64 {
                Some(n as u32)
            } else {
                None
            }
        },
        None => None,
    }
}

/// Whether a node has a card behind it.
///
/// `device.api` is the plain answer and is not always to hand: the
/// registry hands out a subset of a node's properties, and that key is not
/// in it. `device.id` is, and means the same thing: a node backed by a
/// Device object is a real one, while a null sink or a loopback has
/// neither key.
///
/// The bound node's `info` is *not* a better source, despite carrying the
/// full properties in `pw-dump`: `PipeWire` only fills them in when they
/// change, so the first info arrives with an empty dictionary. Reading the
/// kind from there classified every device on the machine as virtual by
/// overwriting the right answer with a guess made from nothing.
pub fn node_kind(list: &Vec<(String, String)>) -> (r: Kind)
    ensures
        r == kind(props::pairs(list@)),
{
    if let Some(api) = props::get(list, "device.api") {
        if !api.as_str().is_empty() {
            return Kind::Physical;
        }
    }
    if props::get(list, "device.id").is_some() {
        return Kind::Physical;
    }
    Kind::Virtual
}

fn face(class: &str, ours: bool) -> (r: Option<Direction>)
    ensures
        r == direction(class@, ours),
{
    if text::same(class, "Audio/Sink") {
        Some(Direction::Sink)
    } else if text::same(class, "Audio/Source") {
        Some(Direction::Source)
    } else if ours && text::same(class, "Stream/Input/Audio") {
        Some(Direction::Sink)
    } else if ours && text::same(class, "Stream/Output/Audio") {
        Some(Direction::Source)
    } else {
        None
    }
}

/// Turn a registry global into a [`Device`], or `None` if it is not an audio
/// node we care about. Everything `PipeWire` exposes comes through here
/// (devices, ports, links, factories) so the filtering matters.
pub fn describe(global: &Global) -> (r: Option<Device>)
    ensures
        match r {
            Some(d) => global.properties() is Some && device(
                global.id,
                global.properties()->Some_0,
            ) == Some(d@),
            None => global.properties() is None || device(
                global.id,
                global.properties()->Some_0,
            ) is None,
        },
{
    let list = match &global.props {
        Some(list) => list,
        None => {
            return None;
        },
    };
    let class = match props::get(list, "media.class") {
        Some(class) => class,
        None => {
            return None;
        },
    };
    let name = props::get(list, "node.name");
    let ours = match name {
        Some(name) => eq::is_chain_node(name.as_str()),
        None => false,
    };
    let direction = match face(class.as_str(), ours) {
        Some(direction) => direction,
        None => {
            return None;
        },
    };
    let name = match name {
        Some(name) => name,
        None => {
            return None;
        },
    };
    let description = match props::get(list, "node.description") {
        Some(description) => description,
        None => match props::get(list, "node.nick") {
            Some(nick) => nick,
            None => name,
        },
    };
    Some(
        Device {
            id: global.id,
            name: name.clone(),
            description: description.clone(),
            direction,
            class: class.clone(),
            rate: node_rate(list),
            channels: node_channels(list),
            assignable: !ours,
            kind: node_kind(list),
        },
    )
}

/// Turn a registry global into a [`Stream`], or `None` if it is not an
/// application playing audio.
pub fn describe_stream(global: &Global) -> (r: Option<Stream>)
    ensures
        match r {
            Some(s) => global.properties() is Some && stream(
                global.id,
                global.properties()->Some_0,
            ) == Some(s@),
            None => global.properties() is None || stream(
                global.id,
                global.properties()->Some_0,
            ) is None,
        },
{
    let list = match &global.props {
        Some(list) => list,
        None => {
            return None;
        },
    };
    let node = props::get(list, "node.name");
    if let Some(name) = node {
        let chars = text::chars_of(name.as_str());
        let mark = text::chars_of("pipemeter");
        if text::contains(chars.as_slice(), mark.as_slice()) {
            return None;
        }
    }
    match props::get(list, "media.class") {
        Some(class) => {
            if !text::same(class.as_str(), "Stream/Output/Audio") {
                return None;
            }
        },
        None => {
            return None;
        },
    }
    let name = match props::get(list, "application.name") {
        Some(name) => name,
        None => match props::get(list, "node.description") {
            Some(description) => description,
            None => match node {
                Some(name) => name,
                None => {
                    return None;
                },
            },
        },
    };
    let node_name = match node {
        Some(name) => name.clone(),
        None => String::new(),
    };
    Some(Stream { id: global.id, name: name.clone(), node_name })
}

/// Turn a registry global into a [`LinkInfo`], or `None` if it is not a link.
pub fn describe_link(global: &Global) -> (r: Option<LinkInfo>)
    ensures
        r == (match global.properties() {
            Some(list) => link(global.id, list),
            None => None,
        }),
{
    let list = match &global.props {
        Some(list) => list,
        None => {
            return None;
        },
    };
    match (get_number(list, "link.output.node"), get_number(list, "link.input.node")) {
        (Some(output_node), Some(input_node)) => Some(
            LinkInfo { id: global.id, output_node, input_node },
        ),
        _ => None,
    }
}

/// Turn a registry global into a [`Port`], or `None` if it is not one.
pub fn describe_port(global: &Global) -> (r: Option<Port>)
    ensures
        match r {
            Some(p) => global.properties() is Some && port(
                global.id,
                global.properties()->Some_0,
            ) == Some(port_text(p)),
            None => global.properties() is None || port(
                global.id,
                global.properties()->Some_0,
            ) is None,
        },
{
    let list = match &global.props {
        Some(list) => list,
        None => {
            return None;
        },
    };
    let direction = match props::get(list, "port.direction") {
        Some(v) => {
            if text::same(v.as_str(), "in") {
                PortDirection::In
            } else if text::same(v.as_str(), "out") {
                PortDirection::Out
            } else {
                return None;
            }
        },
        None => {
            return None;
        },
    };
    let node_id = match get_number(list, "node.id") {
        Some(n) => n,
        None => {
            return None;
        },
    };
    let slot = match get_number(list, "port.id") {
        Some(n) => n,
        None => 0,
    };
    let channel = match props::get(list, "audio.channel") {
        Some(v) => v.clone(),
        None => String::new(),
    };
    Some(Port { id: global.id, node_id, slot, channel, direction })
}

/// What something in the registry is to us.
#[derive(Debug)]
pub enum Seen {
    Device(Device),
    Stream(Stream),
    Link(LinkInfo),
    Port(Port),
    /// Nothing we deal in.
    Other,
}

/// What something is to us, as the contracts see it.
pub enum Sight {
    Device(DeviceText),
    Stream(StreamText),
    Link(LinkInfo),
    Port(PortText),
    Other,
}

impl View for Seen {
    type V = Sight;

    open spec fn view(&self) -> Sight {
        match *self {
            Seen::Device(d) => Sight::Device(d@),
            Seen::Stream(s) => Sight::Stream(s@),
            Seen::Link(l) => Sight::Link(l),
            Seen::Port(p) => Sight::Port(port_text(p)),
            Seen::Other => Sight::Other,
        }
    }
}

/// What something with these properties is to us: a device before a stream,
/// a stream before a link, a link before a port.
pub open spec fn sight(id: u32, list: Option<Properties>) -> Sight {
    match list {
        None => Sight::Other,
        Some(list) => if device(id, list) is Some {
            Sight::Device(device(id, list)->Some_0)
        } else if stream(id, list) is Some {
            Sight::Stream(stream(id, list)->Some_0)
        } else if link(id, list) is Some {
            Sight::Link(link(id, list)->Some_0)
        } else if port(id, list) is Some {
            Sight::Port(port(id, list)->Some_0)
        } else {
            Sight::Other
        },
    }
}

/// Tell what a registry global is.
pub fn classify(global: &Global) -> (seen: Seen)
    ensures
        seen@ == sight(global.id, global.properties()),
{
    if let Some(device) = describe(global) {
        return Seen::Device(device);
    }
    if let Some(stream) = describe_stream(global) {
        return Seen::Stream(stream);
    }
    if let Some(link) = describe_link(global) {
        return Seen::Link(link);
    }
    if let Some(port) = describe_port(global) {
        return Seen::Port(port);
    }
    Seen::Other
}

// ---------------------------------------------------------------------
// Laws

/// Nothing of our own is ever taken for an application: no node whose name
/// has the mixer's in it is a stream.
pub proof fn our_own_are_no_applications(id: u32, list: Properties, name: Seq<char>)
    requires
        props::value_of(list, "node.name"@) == Some(name),
        text::occurs(name, "pipemeter"@),
    ensures
        stream(id, list) is None,
{
}

/// An end of a chain of ours is carried among the devices and never offered
/// for assignment; a device that is none can be.
pub proof fn only_chains_are_hidden(id: u32, list: Properties)
    requires
        device(id, list) is Some,
    ensures
        device(id, list)->Some_0.assignable == !eq::is_endpoint(device(id, list)->Some_0.name),
{
}

/// A device is shown by its description where it has one, by its nickname
/// where it has only that, and by its name where it has neither. The rest is
/// what the properties say: its name, its class and its number.
pub proof fn a_device_is_shown_by_its_best_name(id: u32, list: Properties)
    requires
        device(id, list) is Some,
    ensures
        ({
            let d = device(id, list)->Some_0;
            let described = props::value_of(list, "node.description"@);
            let nicked = props::value_of(list, "node.nick"@);
            &&& described matches Some(text) ==> d.description == text
            &&& described is None && nicked is Some ==> nicked == Some(d.description)
            &&& described is None && nicked is None ==> d.description == d.name
            &&& d.id == id
            &&& props::value_of(list, "node.name"@) == Some(d.name)
            &&& props::value_of(list, "media.class"@) == Some(d.class)
        }),
{
}

/// A node is a device exactly where it has a name and a class, and the class
/// is a sink's or a source's, or the node is an end of a chain of ours and
/// the class that of a stream. What is played into is a sink; what is read
/// from is a source.
pub proof fn what_counts_as_a_device(id: u32, list: Properties, name: Seq<char>, class: Seq<char>)
    requires
        props::value_of(list, "node.name"@) == Some(name),
        props::value_of(list, "media.class"@) == Some(class),
    ensures
        device(id, list) is Some == (class == "Audio/Sink"@ || class == "Audio/Source"@ || (
        eq::is_endpoint(name) && (class == "Stream/Input/Audio"@ || class
            == "Stream/Output/Audio"@))),
        device(id, list) matches Some(d) ==> (d.direction == Direction::Sink) == (class
            == "Audio/Sink"@ || class == "Stream/Input/Audio"@),
        device(id, list) matches Some(d) ==> d.assignable == !eq::is_endpoint(name),
{
    classes_differ();
}

/// A node without a name or a class is no device.
pub proof fn a_device_has_a_name_and_a_class(id: u32, list: Properties)
    requires
        props::value_of(list, "node.name"@) is None || props::value_of(
            list,
            "media.class"@,
        ) is None,
    ensures
        device(id, list) is None,
{
}

/// The classes that matter are all different.
proof fn classes_differ()
    ensures
        "Audio/Sink"@ != "Audio/Source"@,
        "Audio/Sink"@ != "Stream/Input/Audio"@,
        "Audio/Sink"@ != "Stream/Output/Audio"@,
        "Audio/Source"@ != "Stream/Input/Audio"@,
        "Audio/Source"@ != "Stream/Output/Audio"@,
        "Stream/Input/Audio"@ != "Stream/Output/Audio"@,
{
    reveal_strlit("Audio/Sink");
    reveal_strlit("Audio/Source");
    reveal_strlit("Stream/Input/Audio");
    reveal_strlit("Stream/Output/Audio");
    assert("Audio/Sink"@.len() == 10);
    assert("Audio/Source"@.len() == 12);
    assert("Stream/Input/Audio"@[7] == 'I');
    assert("Stream/Output/Audio"@[7] == 'O');
}

/// A node's rate is the first of three that can be read: its own, its
/// clock's, and what stands behind the stroke in the fraction it runs at.
pub proof fn a_rate_is_looked_for_in_three_places(list: Properties, n: u32)
    ensures
        ({
            let own = props::value_of(list, "audio.rate"@);
            let clock = props::value_of(list, "clock.rate"@);
            let fraction = props::value_of(list, "node.rate"@);
            let unread = |v: Option<Seq<char>>|
                v is None || text::parsed(v->Some_0, u32::MAX as nat) is None;
            &&& own is Some && text::parsed(own->Some_0, u32::MAX as nat) == Some(n as nat)
                ==> rate(list) == Some(n)
            &&& unread(own) && clock is Some && text::parsed(clock->Some_0, u32::MAX as nat)
                == Some(n as nat) ==> rate(list) == Some(n)
            &&& unread(own) && unread(clock) && fraction is None ==> rate(list) is None
            &&& unread(own) && unread(clock) && fraction is Some && !fraction->Some_0.contains('/')
                ==> rate(list) is None
            &&& forall|top: Seq<char>, bottom: Seq<char>|
                unread(own) && unread(clock) && !top.contains('/') && fraction == Some(
                    #[trigger] (top + seq!['/'] + bottom),
                ) ==> match text::parsed(bottom, u32::MAX as nat) {
                    Some(n) => rate(list) == Some(n as u32),
                    None => rate(list) is None,
                }
        }),
{
    let own = props::value_of(list, "audio.rate"@);
    let clock = props::value_of(list, "clock.rate"@);
    let fraction = props::value_of(list, "node.rate"@);
    let unread = |v: Option<Seq<char>>|
        v is None || text::parsed(v->Some_0, u32::MAX as nat) is None;
    if fraction is Some {
        text::up_to_is_first(fraction->Some_0, '/');
    }
    assert forall|top: Seq<char>, bottom: Seq<char>|
        unread(own) && unread(clock) && !top.contains('/') && fraction == Some(
            #[trigger] (top + seq!['/'] + bottom),
        ) implies match text::parsed(bottom, u32::MAX as nat) {
        Some(n) => rate(list) == Some(n as u32),
        None => rate(list) is None,
    } by {
        let whole = top + seq!['/'] + bottom;
        let at = text::up_to(whole, '/');
        assert(whole[top.len() as int] == '/');
        if at < top.len() {
            assert(top[at] == whole[at]);
            assert(top.contains('/'));
        }
        assert(at == top.len());
        assert(whole.skip(at + 1) =~= bottom);
    }
}

/// A node has as many channels as it says, and where it does not say, as
/// many as the places it lists, blank ones aside. Where it lists none, the
/// number is not known.
pub proof fn channels_are_said_or_counted(list: Properties, n: u32, places: Seq<Seq<char>>)
    requires
        places.len() > 0,
        forall|i: int| 0 <= i < places.len() ==> !(#[trigger] places[i]).contains(','),
    ensures
        ({
            let said = props::value_of(list, "audio.channels"@);
            let listed = props::value_of(list, "audio.position"@);
            let unread = said is None || text::parsed(said->Some_0, u32::MAX as nat) is None;
            let named = places.filter(
                |p: Seq<char>| text::trimmed(p, text::Trim::Space).len() > 0,
            ).len();
            &&& said is Some && text::parsed(said->Some_0, u32::MAX as nat) == Some(n as nat)
                ==> channels(list) == Some(n)
            &&& unread && listed is None ==> channels(list) is None
            &&& unread && listed == Some(text::strung(places, ","@)) && 0 < named <= u32::MAX
                ==> channels(list) == Some(named as u32)
            &&& unread && listed == Some(text::strung(places, ","@)) && named == 0 ==> channels(
                list,
            ) is None
        }),
{
    reveal_strlit(",");
    assert(","@ =~= seq![',']);
    text::splitting_undoes_stringing(places, ',');
}

/// A node is physical exactly where it has a card behind it: one that names
/// the interface it was found through, or the device that it belongs to.
pub proof fn a_card_makes_it_physical(list: Properties)
    ensures
        props::value_of(list, "device.id"@) is Some ==> kind(list) == Kind::Physical,
        props::value_of(list, "device.api"@) matches Some(api) ==> (api.len() > 0 ==> kind(list)
            == Kind::Physical),
        kind(list) == Kind::Physical && props::value_of(list, "device.id"@) is None
            ==> props::value_of(list, "device.api"@) is Some && props::value_of(
            list,
            "device.api"@,
        )->Some_0.len() > 0,
{
}

/// A device is told the rate, the channels and the make that its properties
/// give.
pub proof fn a_device_keeps_what_it_says(id: u32, list: Properties)
    requires
        device(id, list) is Some,
    ensures
        device(id, list)->Some_0.rate == rate(list),
        device(id, list)->Some_0.channels == channels(list),
        device(id, list)->Some_0.kind == kind(list),
{
}

/// An application is a stream that plays and is none of ours. It goes by its
/// application's name, then its description, then its node's name, and the
/// node's name is kept beside it.
pub proof fn an_application_goes_by_its_best_name(id: u32, list: Properties)
    ensures
        ({
            let node = props::value_of(list, "node.name"@);
            let app = props::value_of(list, "application.name"@);
            let described = props::value_of(list, "node.description"@);
            let ours = node is Some && text::occurs(node->Some_0, "pipemeter"@);
            &&& stream(id, list) is Some == (!ours && props::value_of(list, "media.class"@)
                == Some("Stream/Output/Audio"@) && (app is Some || described is Some || node
                is Some))
            &&& stream(id, list) matches Some(s) ==> {
                &&& s.id == id
                &&& app matches Some(text) ==> s.name == text
                &&& app is None && described is Some ==> described == Some(s.name)
                &&& app is None && described is None ==> node == Some(s.name)
                &&& node matches Some(name) ==> s.node_name == name
                &&& node is None ==> s.node_name.len() == 0
            }
        }),
{
}

/// A link runs from its output node to its input node, and is none where
/// either cannot be read.
pub proof fn a_link_has_two_ends(id: u32, list: Properties, from: u32, to: u32)
    ensures
        props::value_of(list, "link.output.node"@) == Some(text::decimal(from as nat))
            && props::value_of(list, "link.input.node"@) == Some(text::decimal(to as nat))
            ==> link(id, list) == Some(LinkInfo { id, output_node: from, input_node: to }),
        props::value_of(list, "link.output.node"@) is None ==> link(id, list) is None,
        props::value_of(list, "link.input.node"@) is None ==> link(id, list) is None,
{
    text::written_numbers_parse(from as nat, u32::MAX as nat);
    text::written_numbers_parse(to as nat, u32::MAX as nat);
}

/// What a link of ours was made with is what is read of it.
pub proof fn a_link_of_ours_reads_back(id: u32, join: super::links::Join)
    ensures
        link(id, super::links::link_properties(join)) == Some(
            LinkInfo { id, output_node: join.output_node, input_node: join.input_node },
        ),
{
    let list = super::links::link_properties(join);
    reveal_strlit("link.output.node");
    reveal_strlit("link.output.port");
    reveal_strlit("link.input.node");
    reveal_strlit("link.input.port");
    reveal_strlit("object.linger");
    assert("link.input.node"@[5] == 'i');
    assert("link.output.node"@[5] == 'o');
    assert("link.output.port"@[5] == 'o');
    props::the_first_of_a_name_counts(list, "link.output.node"@);
    props::the_first_of_a_name_counts(list, "link.input.node"@);
    assert(list[0].0 == "link.output.node"@);
    assert(list[2].0 == "link.input.node"@);
    a_link_has_two_ends(id, list, join.output_node, join.input_node);
}

/// A port faces the way it says, on the node it says. A channel it does not
/// give is empty, and a place it does not give is the first.
pub proof fn a_port_is_what_it_says(id: u32, list: Properties, node: u32, slot: u32)
    ensures
        ({
            let way = props::value_of(list, "port.direction"@);
            let on = props::value_of(list, "node.id"@);
            let place = props::value_of(list, "port.id"@);
            let channel = props::value_of(list, "audio.channel"@);
            &&& port(id, list) is Some ==> (way == Some("in"@) || way == Some("out"@)) && on is Some
            &&& (way == Some("in"@) || way == Some("out"@)) && on == Some(
                text::decimal(node as nat),
            ) ==> {
                &&& port(id, list) is Some
                &&& port(id, list)->Some_0.id == id
                &&& port(id, list)->Some_0.node_id == node
                &&& (port(id, list)->Some_0.direction == PortDirection::In) == (way == Some("in"@))
                &&& channel matches Some(text) ==> port(id, list)->Some_0.channel == text
                &&& channel is None ==> port(id, list)->Some_0.channel.len() == 0
                &&& place == Some(text::decimal(slot as nat)) ==> port(id, list)->Some_0.slot
                    == slot
                &&& place is None ==> port(id, list)->Some_0.slot == 0
            }
        }),
{
    text::written_numbers_parse(node as nat, u32::MAX as nat);
    text::written_numbers_parse(slot as nat, u32::MAX as nat);
    reveal_strlit("in");
    reveal_strlit("out");
    assert("in"@.len() != "out"@.len());
}

/// What is seen is a device before it is anything else, then a stream, then
/// a link, then a port, and without properties it is nothing.
pub proof fn a_sight_is_the_first_that_fits(id: u32, list: Properties)
    ensures
        sight(id, None) == Sight::Other,
        device(id, list) matches Some(d) ==> sight(id, Some(list)) == Sight::Device(d),
        sight(id, Some(list)) is Device ==> device(id, list) is Some,
        device(id, list) is None ==> (stream(id, list) matches Some(s) ==> sight(id, Some(list))
            == Sight::Stream(s)),
        sight(id, Some(list)) is Stream ==> stream(id, list) is Some && device(id, list) is None,
        device(id, list) is None && stream(id, list) is None ==> (link(id, list) matches Some(l)
            ==> sight(id, Some(list)) == Sight::Link(l)),
        device(id, list) is None && stream(id, list) is None && link(id, list) is None ==> (port(
            id,
            list,
        ) matches Some(p) ==> sight(id, Some(list)) == Sight::Port(p)),
        device(id, list) is None && stream(id, list) is None && link(id, list) is None && port(
            id,
            list,
        ) is None ==> sight(id, Some(list)) == Sight::Other,
{
}

} // verus!
