//! What the mixer knows of the graph, and what it does about it.

use vstd::prelude::*;

use crate::single::Single;

use super::links;

verus! {

/// Which way audio flows through a device, from the mixer's point of view.
///
/// Note this is `PipeWire`'s sense, not Voicemeeter's: a `Sink` is something
/// you play *into*. A Voicemeeter virtual strip is backed by a sink, and a
/// Voicemeeter A-bus is backed by a sink too; the difference is who writes
/// to it, not the node type.
#[derive(Debug, Clone, Copy, PartialEq, Eq, Structural)]
pub enum Direction {
    /// A capture device: microphones, monitors.
    Source,
    /// A playback device: speakers, headphones, null sinks.
    Sink,
}

/// Whether a node has a card behind it.
#[derive(Debug, Clone, Copy, PartialEq, Eq, Structural)]
pub enum Kind {
    /// A card, or something plugged into one.
    Physical,
    /// A null sink, a loopback, a filter.
    Virtual,
}

/// An application playing audio, as the registry reports it.
#[derive(Debug, Clone)]
pub struct Stream {
    pub id: u32,
    /// Human name: the application, falling back to the node's own.
    pub name: String,
    /// The node's own name, which is what a meter has to be told to target.
    /// Not the human one: two copies of a program share a display name.
    pub node_name: String,
}

/// A stream as the contracts see it.
pub struct StreamText {
    pub id: u32,
    pub name: Seq<char>,
    pub node_name: Seq<char>,
}

impl View for Stream {
    type V = StreamText;

    open spec fn view(&self) -> StreamText {
        StreamText { id: self.id, name: self.name@, node_name: self.node_name@ }
    }
}

/// A link between two nodes, which is how a stream is matched to the strip
/// it is playing into.
#[derive(Debug, Clone, Copy, PartialEq, Eq, Structural)]
pub struct LinkInfo {
    pub id: u32,
    pub output_node: u32,
    pub input_node: u32,
}

/// One audio node as the mixer cares about it.
#[derive(Debug, Clone)]
pub struct Device {
    /// `PipeWire` global id. Not stable across reconnects.
    pub id: u32,
    /// Machine name, e.g. `alsa_output.usb-...analog-stereo`.
    pub name: String,
    /// Human name for display.
    pub description: String,
    pub direction: Direction,
    /// The `media.class` the node was created with.
    pub class: String,
    /// Sample rate and channel count, when the node advertises them. Shown
    /// in the system settings.
    pub rate: Option<u32>,
    pub channels: Option<u32>,
    /// Whether this is a real device a strip or bus can be assigned to.
    ///
    /// Our own EQ chains are ordinary streams, not devices, but they still
    /// have to be findable by name so the matrix can route through them.
    /// They are carried in the same list and hidden from the pickers rather
    /// than tracked separately, since everything else about them (id
    /// lookup, removal, port bookkeeping) is identical.
    pub assignable: bool,
    /// Whether it has a card behind it.
    pub kind: Kind,
}

/// A device as the contracts see it.
pub struct DeviceText {
    pub id: u32,
    pub name: Seq<char>,
    pub description: Seq<char>,
    pub direction: Direction,
    pub class: Seq<char>,
    pub rate: Option<u32>,
    pub channels: Option<u32>,
    pub assignable: bool,
    pub kind: Kind,
}

impl View for Device {
    type V = DeviceText;

    open spec fn view(&self) -> DeviceText {
        DeviceText {
            id: self.id,
            name: self.name@,
            description: self.description@,
            direction: self.direction,
            class: self.class@,
            rate: self.rate,
            channels: self.channels,
            assignable: self.assignable,
            kind: self.kind,
        }
    }
}

/// A request to the `PipeWire` thread.
#[derive(Debug)]
pub enum Command {
    /// Route, or unroute, one node into another.
    SetRoute { route: links::Route, enabled: bool },
    /// Create the virtual strips and buses if they do not exist.
    CreateDevices,
    /// Tear them down. Because they linger, dropping our proxies is not
    /// enough: each global has to be destroyed explicitly.
    RemoveDevices,
    /// Remove ours and make them again, without the caller being able to
    /// get the order wrong.
    RecreateDevices,
    /// Set a node's output level, as a linear amplitude. Mute is amplitude
    /// zero rather than a separate flag, so one path covers both.
    SetVolume {
        node: u32,
        amplitude: Single,
        /// Per-channel multipliers on top of `amplitude`, left then right.
        /// Unity on both is no panning.
        balance: (Single, Single),
    },
    /// Mute or unmute a node.
    ///
    /// Its own property rather than a volume of zero: an application muted
    /// from the mixer must come back at the level it had, and Voicemeeter's
    /// mute is likewise independent of the fader.
    SetMute { node: u32, muted: bool },
    /// Start recording nodes to files, or stop the recording.
    ///
    /// Only one at a time: the deck has one transport.
    Record {
        /// One entry per take, each its own node and its own file. Empty
        /// stops whatever is running, which is how the deck's Stop is sent.
        /// Each take's node, by name rather than by id. `target.object`
        /// resolves a name; handed a registry id it matches nothing and the
        /// stream records a header and no audio at all.
        takes: Vec<(String, String)>,
        rate: u32,
    },
    /// Set named controls on a filter-chain node.
    SetControls { node: u32, controls: Vec<(String, Single)> },
    /// Try again to complete any route whose ports were not there yet.
    RetryRoutes,
    /// Fold a node's routes down to mono, or stop. `end` says whether the
    /// node is the source of those routes or their target.
    SetMono { node: u32, end: links::End, mono: bool },
}

impl Command {
    /// Whether another command asks for the same.
    pub open spec fn asks_the_same(self, other: Command) -> bool {
        match self {
            Command::Record { takes, rate } => other matches Command::Record {
                takes: others,
                rate: other_rate,
            } && takes@ == others@ && rate == other_rate,
            Command::SetControls { node, controls } => other matches Command::SetControls {
                node: other_node,
                controls: others,
            } && node == other_node && controls@ == others@,
            _ => self == other,
        }
    }
}

impl Clone for Command {
    fn clone(&self) -> (command: Command)
        ensures
            self.asks_the_same(command),
    {
        match self {
            Command::SetRoute { route, enabled } => Command::SetRoute {
                route: *route,
                enabled: *enabled,
            },
            Command::CreateDevices => Command::CreateDevices,
            Command::RemoveDevices => Command::RemoveDevices,
            Command::RecreateDevices => Command::RecreateDevices,
            Command::SetVolume { node, amplitude, balance } => Command::SetVolume {
                node: *node,
                amplitude: *amplitude,
                balance: *balance,
            },
            Command::SetMute { node, muted } => Command::SetMute { node: *node, muted: *muted },
            Command::Record { takes, rate } => {
                let mut copies: Vec<(String, String)> = Vec::new();
                for i in 0..takes.len()
                    invariant
                        copies@ == takes@.take(i as int),
                {
                    copies.push((takes[i].0.clone(), takes[i].1.clone()));
                    proof {
                        assert(takes@.take(i + 1) =~= takes@.take(i as int).push(takes@[i as int]));
                    }
                }
                proof {
                    assert(takes@.take(takes@.len() as int) =~= takes@);
                }
                Command::Record { takes: copies, rate: *rate }
            },
            Command::SetControls { node, controls } => {
                let mut copies: Vec<(String, Single)> = Vec::new();
                for i in 0..controls.len()
                    invariant
                        copies@ == controls@.take(i as int),
                {
                    copies.push((controls[i].0.clone(), controls[i].1));
                    proof {
                        assert(controls@.take(i + 1) =~= controls@.take(i as int).push(
                            controls@[i as int],
                        ));
                    }
                }
                proof {
                    assert(controls@.take(controls@.len() as int) =~= controls@);
                }
                Command::SetControls { node: *node, controls: copies }
            },
            Command::RetryRoutes => Command::RetryRoutes,
            Command::SetMono { node, end, mono } => Command::SetMono {
                node: *node,
                end: *end,
                mono: *mono,
            },
        }
    }
}

/// Commands that ask the same are alike in everything that they ask for.
pub proof fn asking_the_same_is_asking_for_the_same(a: Command, b: Command)
    requires
        a.asks_the_same(b),
    ensures
        a is Record == b is Record,
        a is SetControls == b is SetControls,
        !(a is Record) && !(a is SetControls) ==> a == b,
        a is Record ==> a->Record_takes@ == b->Record_takes@ && a->Record_rate == b->Record_rate,
        a is SetControls ==> a->SetControls_node == b->SetControls_node && a->controls@
            == b->controls@,
{
}

/// A command asks the same as itself.
pub proof fn a_command_asks_the_same_as_itself(a: Command)
    ensures
        a.asks_the_same(a),
{
}

} // verus!
