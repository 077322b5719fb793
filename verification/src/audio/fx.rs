//! The shared effect chains: one reverb, one delay, and the external sends
//! and returns.
//!
//! An effect here is not another filter in line. It is a *send*: every strip
//! puts some of itself into a shared effect, and every bus takes some of the
//! result back. That is a topology question before it is a plugin question,
//! and the topology is the whole difficulty.
//!
//! # Where the level lives
//!
//! `PipeWire` links carry no gain, so a send at forty per cent cannot be a
//! quiet link: it has to be a gain node somewhere. The obvious somewhere is
//! beside the strip's own output. It does not work: a chain declaring more
//! outputs than its capture side has channels leaves filter-chain to
//! duplicate the graph and guess the channel order, and what it guesses is
//! wrong. The strip's own signal stops arriving on the front pair and the
//! chain passes silence.
//!
//! So the gain lives here instead, on the receiving end. This chain takes
//! two channels per strip and gives each its own `linear`, whose `Mult` is
//! that strip's send knob. Sixteen named inputs against sixteen capture
//! channels, and a named output for every playback channel: no duplication
//! anywhere, so no guessing.
//!
//! Two facts this rests on, both established by experiment:
//!
//! - a builtin `linear`'s `Mult` accepts a runtime write, so it can be a
//!   knob;
//! - a builtin `mixer`'s gains do not, so it can only sum. Its gains are
//!   fixed at unity in the config, which does take.
//!
//! # What drives it
//!
//! The playback side is *not* passive, unlike a strip's chain. A strip's
//! chain is pulled by the hardware sink at the end of it; this one is fed by
//! chains that are themselves passive, so with both ends passive nothing
//! ever asked it to run. It stayed suspended, a suspended node has no
//! realised ports, and the returns had nothing to attach to.
//!
//! # The one that has to be got right
//!
//! **A filter-chain drops control writes while it is idle.** Set a send on a
//! chain nothing is linked to and the value is accepted, acknowledged and
//! silently discarded, which looks exactly like a wrong control name. So the
//! effect chains must be linked to their buses *before* any send or return
//! level is pushed, and a chain that has fallen idle has to be written again
//! when it comes back.

use vstd::prelude::*;

use crate::props;
use crate::text;

use super::chain::{self, Filter, Graph, GraphText, Side};
use super::eq;
use super::labels;

verus! {

/// Strips that can send, and buses that can return. Both are fixed, like
/// everything else about this mixer's shape.
pub const STRIPS: usize = 8;

pub const BUSES: usize = 8;

/// Which effect a chain is.
#[derive(Debug, Clone, Copy, PartialEq, Eq, Structural)]
pub enum Kind {
    Reverb,
    Delay,
    /// An external FX send. It has no processing of its own: it gathers
    /// each strip's send at that strip's own level and offers the mix as a
    /// node any program can capture. The effect lives in someone else's
    /// software, which is what makes it external.
    External1,
    External2,
    /// An external FX return. The other half of a send: the program that
    /// processed the audio plays back into this chain's input, and it
    /// carries one gain per bus on the way out, which are the External FX
    /// Return knobs. Only the first input pair is used: the rest of the
    /// per-strip inputs exist because it is the same graph as a returning
    /// effect, and building a second shape for it would be two things to
    /// keep in step.
    Return1,
    Return2,
}

// ---------------------------------------------------------------------
// The graph

/// What a gain is called: which list it is in, its index there, its side.
pub open spec fn gain_name(list: Seq<char>, index: int, side: Seq<char>) -> Seq<char> {
    list + text::decimal(index as nat) + side
}

/// A gain, silent until it is turned up.
pub open spec fn gain(name: Seq<char>) -> Filter {
    chain::builtin(name, "linear"@, seq![("Mult"@, "0.0"@), ("Add"@, "0.0"@)])
}

/// The side a channel is on, left first.
pub open spec fn side_of(channel: int) -> Seq<char> {
    if channel % 2 == 0 {
        "L"@
    } else {
        "R"@
    }
}

/// The gain that a channel goes through.
pub open spec fn channel_gain(list: Seq<char>, channel: int) -> Seq<char> {
    gain_name(list, channel / 2, side_of(channel))
}

/// What a strip's send on one side is summed by, and how.
pub open spec fn sum(side: Seq<char>) -> Filter {
    chain::builtin(
        "sum"@ + side,
        "mixer"@,
        Seq::new(STRIPS as nat, |i: int| ("Gain "@ + text::decimal((i + 1) as nat), "1.0"@)),
    )
}

/// The sends of one side going into their sum.
pub open spec fn summed(side: Seq<char>) -> Seq<Seq<char>> {
    Seq::new(
        STRIPS as nat,
        |i: int|
            chain::wire(
                gain_name("s"@, i, side) + ":Out"@,
                "sum"@ + side + ":In "@ + text::decimal((i + 1) as nat),
            ),
    )
}

/// What an effect is made of.
pub open spec fn effect_nodes(kind: Kind) -> Seq<Seq<char>> {
    let delay = seq![("Delay (s)"@, "0.25"@), ("Feedback"@, "0.3"@)];
    match kind {
        Kind::Reverb => seq![
            chain::filter_line(
                chain::ladspa(
                    "caps"@,
                    "verb"@,
                    "Plate"@,
                    seq![
                        ("blend"@, "0.25"@),
                        ("tail"@, "0.5"@),
                        ("damping"@, "0.25"@),
                        ("bandwidth"@, "0.75"@),
                    ],
                ),
            ),
        ],
        Kind::Delay => seq![
            chain::filter_line(chain::builtin("dlyL"@, "delay"@, delay)),
            chain::filter_line(chain::builtin("dlyR"@, "delay"@, delay)),
        ],
        _ => seq![""@],
    }
}

/// How it is joined between the sums and the way out.
pub open spec fn effect_links(kind: Kind) -> Seq<Seq<char>> {
    match kind {
        Kind::Reverb => seq![
            chain::wire("sumL:Out"@, "verb:in"@),
            chain::wire("verb:out.l"@, "outL:In"@),
            chain::wire("verb:out.r"@, "outR:In"@),
        ],
        Kind::Delay => seq![
            chain::wire("sumL:Out"@, "dlyL:In"@),
            chain::wire("sumR:Out"@, "dlyR:In"@),
            chain::wire("dlyL:Out"@, "outL:In"@),
            chain::wire("dlyR:Out"@, "outR:In"@),
        ],
        _ => seq![chain::wire("sumL:Out"@, "outL:In"@), chain::wire("sumR:Out"@, "outR:In"@)],
    }
}

/// Whether the chain hands its result back to the buses.
pub open spec fn hands_back(kind: Kind) -> bool {
    kind != Kind::External1 && kind != Kind::External2
}

/// How many pairs come out of the chain: one for each bus, or just the one.
pub open spec fn output_pairs(kind: Kind) -> nat {
    if hands_back(kind) {
        BUSES as nat
    } else {
        1
    }
}

/// The way out on one side: a copy, and behind it a gain for each bus that
/// takes it back.
pub open spec fn way_out(kind: Kind, side: Seq<char>) -> Seq<Seq<char>> {
    let out = seq![chain::filter_line(chain::builtin("out"@ + side, "copy"@, seq![]))];
    if hands_back(kind) {
        out + Seq::new(BUSES as nat, |i: int| chain::filter_line(gain(gain_name("r"@, i, side))))
    } else {
        out
    }
}

/// The copy on one side going into each of those gains.
pub open spec fn handed_back(kind: Kind, side: Seq<char>) -> Seq<Seq<char>> {
    if hands_back(kind) {
        Seq::new(
            BUSES as nat,
            |i: int|
                chain::wire("out"@ + side + ":Out"@, gain_name("r"@, i, side) + ":In"@),
        )
    } else {
        seq![]
    }
}

/// One gain for each side of each strip, on the way in.
pub open spec fn send_gains() -> Seq<Seq<char>> {
    Seq::new((STRIPS * 2) as nat, |i: int| chain::filter_line(gain(channel_gain("s"@, i))))
}

/// Every filter of a chain.
pub open spec fn all_nodes(kind: Kind) -> Seq<Seq<char>> {
    send_gains() + seq![chain::filter_line(sum("L"@)), chain::filter_line(sum("R"@))]
        + effect_nodes(kind) + way_out(kind, "L"@) + way_out(kind, "R"@)
}

/// Every link of a chain.
pub open spec fn all_links(kind: Kind) -> Seq<Seq<char>> {
    summed("L"@) + summed("R"@) + effect_links(kind) + handed_back(kind, "L"@) + handed_back(
        kind,
        "R"@,
    )
}

/// The ports the strips send into.
pub open spec fn all_inputs() -> Seq<Seq<char>> {
    Seq::new((STRIPS * 2) as nat, |i: int| channel_gain("s"@, i) + ":In"@)
}

/// The ports the buses take back.
pub open spec fn all_outputs(kind: Kind) -> Seq<Seq<char>> {
    if hands_back(kind) {
        Seq::new((BUSES * 2) as nat, |i: int| channel_gain("r"@, i) + ":Out"@)
    } else {
        seq!["outL:Out"@, "outR:Out"@]
    }
}

/// The graph of an effect.
pub open spec fn graph(kind: Kind) -> GraphText {
    GraphText {
        name: node_name(kind),
        description: "PipeMeter FX"@,
        media: false,
        nodes: all_nodes(kind),
        links: Some(all_links(kind)),
        inputs: all_inputs(),
        outputs: all_outputs(kind),
        capture: Side { channels: (STRIPS * 2) as usize, passive: Some(true) },
        playback: Side { channels: (output_pairs(kind) * 2) as usize, passive: None },
    }
}

/// What an effect's chain is called.
pub open spec fn node_name(kind: Kind) -> Seq<char> {
    match kind {
        Kind::Reverb => "pipemeter_reverb"@,
        Kind::Delay => "pipemeter_delay"@,
        Kind::External1 => "pipemeter_extfx1"@,
        Kind::External2 => "pipemeter_extfx2"@,
        Kind::Return1 => "pipemeter_extret1"@,
        Kind::Return2 => "pipemeter_extret2"@,
    }
}

// ---------------------------------------------------------------------
// Building it

fn gain_node(list: &str, index: usize, side: &str) -> (name: String)
    ensures
        name@ == gain_name(list@, index as int, side@),
{
    text::cat3(list, text::number(index as u64).as_str(), side)
}

fn gain_line(list: &str, index: usize, side: &str) -> (line: String)
    ensures
        line@ == chain::filter_line(gain(gain_name(list@, index as int, side@))),
{
    let mut controls = props::none();
    props::put(&mut controls, "Mult", "0.0");
    props::put(&mut controls, "Add", "0.0");
    proof {
        assert(props::pairs(controls@) =~= seq![("Mult"@, "0.0"@), ("Add"@, "0.0"@)]);
    }
    chain::builtin_filter(gain_node(list, index, side).as_str(), "linear", &controls)
}

fn sum_line(side: &str) -> (line: String)
    ensures
        line@ == chain::filter_line(sum(side@)),
{
    let mut controls = props::none();
    let ghost want = sum(side@).controls;
    for i in 0..STRIPS
        invariant
            want == sum(side@).controls,
            props::pairs(controls@) == want.take(i as int),
    {
        props::put(
            &mut controls,
            text::cat2("Gain ", text::number((i + 1) as u64).as_str()).as_str(),
            "1.0",
        );
        proof {
            assert(want.take(i + 1) =~= want.take(i as int).push(want[i as int]));
        }
    }
    proof {
        assert(want.take(STRIPS as int) =~= want);
    }
    chain::builtin_filter(text::cat2("sum", side).as_str(), "mixer", &controls)
}

fn sum_links(side: &str) -> (page: Vec<String>)
    ensures
        text::texts(page@) == summed(side@),
{
    let mut page = text::blank();
    let ghost want = summed(side@);
    for i in 0..STRIPS
        invariant
            want == summed(side@),
            text::texts(page@) == want.take(i as int),
    {
        let from = text::cat2(gain_node("s", i, side).as_str(), ":Out");
        let mut to = text::cat3("sum", side, ":In ");
        to.append(text::number((i + 1) as u64).as_str());
        text::write(&mut page, chain::wired(from.as_str(), to.as_str()));
        proof {
            assert(want.take(i + 1) =~= want.take(i as int).push(want[i as int]));
        }
    }
    proof {
        assert(want.take(STRIPS as int) =~= want);
    }
    page
}

fn out_nodes(kind: Kind, side: &str) -> (page: Vec<String>)
    ensures
        text::texts(page@) == way_out(kind, side@),
{
    let mut page = text::blank();
    let ghost want = way_out(kind, side@);
    text::write(
        &mut page,
        chain::builtin_filter(text::cat2("out", side).as_str(), "copy", &props::none()),
    );
    proof {
        assert(text::texts(page@) =~= want.take(1));
    }
    if kind.returns_to_buses() {
        for i in 0..BUSES
            invariant
                hands_back(kind),
                want == way_out(kind, side@),
                text::texts(page@) == want.take(i + 1),
        {
            text::write(&mut page, gain_line("r", i, side));
            proof {
                assert(want.take(i + 2) =~= want.take(i + 1).push(want[i + 1]));
            }
        }
    }
    proof {
        assert(want.take(want.len() as int) =~= want);
    }
    page
}

fn out_links(kind: Kind, side: &str) -> (page: Vec<String>)
    ensures
        text::texts(page@) == handed_back(kind, side@),
{
    let mut page = text::blank();
    if kind.returns_to_buses() {
        let ghost want = handed_back(kind, side@);
        for i in 0..BUSES
            invariant
                hands_back(kind),
                want == handed_back(kind, side@),
                text::texts(page@) == want.take(i as int),
        {
            let from = text::cat3("out", side, ":Out");
            let to = text::cat2(gain_node("r", i, side).as_str(), ":In");
            text::write(&mut page, chain::wired(from.as_str(), to.as_str()));
            proof {
                assert(want.take(i + 1) =~= want.take(i as int).push(want[i as int]));
            }
        }
        proof {
            assert(want.take(BUSES as int) =~= want);
        }
    }
    page
}

fn channel_ports(list: &str, count: usize, port: &str) -> (page: Vec<String>)
    ensures
        text::texts(page@) == Seq::new(
            (count * 2) as nat,
            |i: int| channel_gain(list@, i) + port@,
        ),
{
    let mut page = text::blank();
    let ghost want = Seq::new((count * 2) as nat, |i: int| channel_gain(list@, i) + port@);
    for i in 0..count
        invariant
            want == Seq::new((count * 2) as nat, |i: int| channel_gain(list@, i) + port@),
            text::texts(page@) == want.take(i * 2),
    {
        text::write(&mut page, text::cat2(gain_node(list, i, "L").as_str(), port));
        text::write(&mut page, text::cat2(gain_node(list, i, "R").as_str(), port));
        proof {
            assert((i * 2) / 2 == i && (i * 2 + 1) / 2 == i);
            assert(want.take((i + 1) * 2) =~= want.take(i * 2).push(want[i * 2]).push(
                want[i * 2 + 1],
            ));
        }
    }
    proof {
        assert(want.take(count * 2) =~= want);
    }
    page
}

fn send_nodes() -> (page: Vec<String>)
    ensures
        text::texts(page@) == send_gains(),
{
    let mut page = text::blank();
    let ghost want = send_gains();
    for i in 0..STRIPS
        invariant
            want == send_gains(),
            text::texts(page@) == want.take(i * 2),
    {
        text::write(&mut page, gain_line("s", i, "L"));
        text::write(&mut page, gain_line("s", i, "R"));
        proof {
            assert((i * 2) / 2 == i && (i * 2 + 1) / 2 == i);
            assert(want.take((i + 1) * 2) =~= want.take(i * 2).push(want[i * 2]).push(
                want[i * 2 + 1],
            ));
        }
    }
    proof {
        assert(want.take(STRIPS * 2) =~= want);
    }
    page
}

impl Kind {
    /// Whether the chain hands its result back to the buses.
    ///
    /// A reverb or a delay does: the FX RETURN knobs are one gain per bus
    /// on its way out. An external send does not, its output is the
    /// product, offered to whatever wants to capture it, so it carries a
    /// single output pair instead of one per bus.
    #[must_use]
    pub fn returns_to_buses(self) -> (r: bool)
        ensures
            r == hands_back(self),
    {
        match self {
            Kind::Reverb => true,
            Kind::Delay => true,
            Kind::External1 => false,
            Kind::External2 => false,
            Kind::Return1 => true,
            Kind::Return2 => true,
        }
    }

    /// Whether the chain is switched on and off by a preset.
    ///
    /// Only the two internal effects are. A send and a return are always
    /// live: there is no preset to choose, and their knobs at zero are
    /// what silences them.
    #[must_use]
    pub fn has_preset(self) -> (r: bool)
        ensures
            r == (self == Kind::Reverb || self == Kind::Delay),
    {
        match self {
            Kind::Reverb => true,
            Kind::Delay => true,
            _ => false,
        }
    }

    /// Whether the chain gathers its input from the strips.
    ///
    /// Everything except a return does. A return's input comes from
    /// whichever program processed the send, playing into its input node.
    #[must_use]
    pub fn takes_strip_sends(self) -> (r: bool)
        ensures
            r == (self != Kind::Return1 && self != Kind::Return2),
    {
        match self {
            Kind::Return1 => false,
            Kind::Return2 => false,
            _ => true,
        }
    }

    /// The node name, which marks the helper as ours.
    #[must_use]
    pub fn node(self) -> (name: &'static str)
        ensures
            name@ == node_name(self),
    {
        match self {
            Kind::Reverb => "pipemeter_reverb",
            Kind::Delay => "pipemeter_delay",
            Kind::External1 => "pipemeter_extfx1",
            Kind::External2 => "pipemeter_extfx2",
            Kind::Return1 => "pipemeter_extret1",
            Kind::Return2 => "pipemeter_extret2",
        }
    }

    /// The processing itself, as filter-chain nodes and the links between
    /// them, taking the sums and leaving `outL`/`outR`.
    ///
    /// CAPS Plate for the reverb, since it is part of the standard LADSPA
    /// set and is what Voicemeeter's reverb sounds nearest to. The delay is
    /// the builtin, which needs no plugin at all. The others go straight
    /// through: the mix is the product, so there is nothing between the
    /// summing and the output.
    pub fn processing(self) -> (pages: (Vec<String>, Vec<String>))
        ensures
            text::texts(pages.0@) == effect_nodes(self),
            text::texts(pages.1@) == effect_links(self),
    {
        let mut nodes = text::blank();
        let mut links = text::blank();
        match self {
            Kind::Reverb => {
                let mut controls = props::none();
                props::put(&mut controls, "blend", "0.25");
                props::put(&mut controls, "tail", "0.5");
                props::put(&mut controls, "damping", "0.25");
                props::put(&mut controls, "bandwidth", "0.75");
                proof {
                    assert(props::pairs(controls@) =~= seq![
                        ("blend"@, "0.25"@),
                        ("tail"@, "0.5"@),
                        ("damping"@, "0.25"@),
                        ("bandwidth"@, "0.75"@),
                    ]);
                }
                text::write(&mut nodes, chain::ladspa_filter("caps", "verb", "Plate", &controls));
                text::write(&mut links, chain::wired("sumL:Out", "verb:in"));
                text::write(&mut links, chain::wired("verb:out.l", "outL:In"));
                text::write(&mut links, chain::wired("verb:out.r", "outR:In"));
            },
            Kind::Delay => {
                let mut controls = props::none();
                props::put(&mut controls, "Delay (s)", "0.25");
                props::put(&mut controls, "Feedback", "0.3");
                proof {
                    assert(props::pairs(controls@) =~= seq![
                        ("Delay (s)"@, "0.25"@),
                        ("Feedback"@, "0.3"@),
                    ]);
                }
                text::write(&mut nodes, chain::builtin_filter("dlyL", "delay", &controls));
                text::write(&mut nodes, chain::builtin_filter("dlyR", "delay", &controls));
                text::write(&mut links, chain::wired("sumL:Out", "dlyL:In"));
                text::write(&mut links, chain::wired("sumR:Out", "dlyR:In"));
                text::write(&mut links, chain::wired("dlyL:Out", "outL:In"));
                text::write(&mut links, chain::wired("dlyR:Out", "outR:In"));
            },
            _ => {
                text::write(&mut nodes, "".to_owned());
                text::write(&mut links, chain::wired("sumL:Out", "outL:In"));
                text::write(&mut links, chain::wired("sumR:Out", "outR:In"));
            },
        }
        proof {
            assert(text::texts(nodes@) =~= effect_nodes(self));
            assert(text::texts(links@) =~= effect_links(self));
        }
        (nodes, links)
    }
}

/// The control that carries strip `index`'s send level, per channel.
#[must_use]
pub fn send_control(index: usize) -> (controls: [String; 2])
    ensures
        controls@[0]@ == gain_name("s"@, index as int, "L"@) + ":Mult"@,
        controls@[1]@ == gain_name("s"@, index as int, "R"@) + ":Mult"@,
{
    [
        text::cat2(gain_node("s", index, "L").as_str(), ":Mult"),
        text::cat2(gain_node("s", index, "R").as_str(), ":Mult"),
    ]
}

/// The control that carries bus `index`'s return level, per channel.
#[must_use]
pub fn return_control(index: usize) -> (controls: [String; 2])
    ensures
        controls@[0]@ == gain_name("r"@, index as int, "L"@) + ":Mult"@,
        controls@[1]@ == gain_name("r"@, index as int, "R"@) + ":Mult"@,
{
    [
        text::cat2(gain_node("r", index, "L").as_str(), ":Mult"),
        text::cat2(gain_node("r", index, "R").as_str(), ":Mult"),
    ]
}

/// Which capture pair strip `index` sends into.
#[must_use]
pub fn send_pair(index: usize) -> (pair: u32)
    ensures
        pair == index as u32,
{
    index as u32
}

/// Which playback pair bus `index` takes back.
#[must_use]
pub fn return_pair(index: usize) -> (pair: u32)
    ensures
        pair == index as u32,
{
    index as u32
}

/// The chain's configuration text.
///
/// Public so the window that names its controls can assert every one of
/// them exists in the graph that is built: a knob naming a control the
/// chain does not have would turn and do nothing.
pub fn config(kind: Kind) -> (r: String)
    ensures
        r@ == chain::file(graph(kind)),
{
    let (effect_lines, effect_wires) = kind.processing();

    // One gain per strip per channel, on the way in. These are the send
    // knobs, and the reason the gain lives here rather than on the strips.
    let mut nodes = send_nodes();
    // Two mixers to sum them. Their gains are fixed at unity here because a
    // mixer's gains cannot be written at runtime, which is fine, since all
    // this one does is add.
    text::write(&mut nodes, sum_line("L"));
    text::write(&mut nodes, sum_line("R"));
    proof {
        assert(text::texts(nodes@) =~= send_gains() + seq![
            chain::filter_line(sum("L"@)),
            chain::filter_line(sum("R"@)),
        ]);
    }
    let mut links = sum_links("L");
    text::write_all(&mut links, &sum_links("R"));

    text::write_all(&mut nodes, &effect_lines);
    text::write_all(&mut links, &effect_wires);

    // The effect's own output, then whatever carries it away. A returning
    // effect gets one gain per bus, which are the FX RETURN knobs. A send
    // has nowhere to return to: its output is the product, for another
    // program to capture, so it ends at `out`.
    text::write_all(&mut nodes, &out_nodes(kind, "L"));
    text::write_all(&mut nodes, &out_nodes(kind, "R"));
    text::write_all(&mut links, &out_links(kind, "L"));
    text::write_all(&mut links, &out_links(kind, "R"));

    let g = wrap(kind, nodes, links);
    g.config()
}

/// Every input and every output named, one for one against the channel
/// counts. That is what keeps filter-chain from duplicating the graph and
/// guessing an order.
///
/// One pair per bus for a returning effect, a single pair for a send.
/// The count has to match what the graph actually produces: a chain
/// declaring more outputs than it has breaks its channel mapping and
/// passes silence.
fn wrap(kind: Kind, nodes: Vec<String>, links: Vec<String>) -> (g: Graph)
    requires
        text::texts(nodes@) == all_nodes(kind),
        text::texts(links@) == all_links(kind),
    ensures
        g@ == graph(kind),
{
    let inputs = channel_ports("s", STRIPS, ":In");
    let (outputs, channels) = if kind.returns_to_buses() {
        (channel_ports("r", BUSES, ":Out"), BUSES * 2)
    } else {
        let mut pair = text::blank();
        text::write(&mut pair, "outL:Out".to_owned());
        text::write(&mut pair, "outR:Out".to_owned());
        (pair, 2)
    };
    proof {
        assert(text::texts(inputs@) =~= all_inputs());
        assert(text::texts(outputs@) =~= all_outputs(kind));
    }
    Graph {
        name: kind.node().to_owned(),
        description: "PipeMeter FX",
        media: false,
        nodes,
        links: Some(links),
        inputs,
        outputs,
        capture: Side { channels: STRIPS * 2, passive: Some(true) },
        playback: Side { channels, passive: None },
    }
}

// ---------------------------------------------------------------------
// Laws

/// Every port is named, one for one against the channel counts.
pub proof fn every_channel_has_a_port(kind: Kind)
    ensures
        graph(kind).inputs.len() == graph(kind).capture.channels,
        graph(kind).outputs.len() == graph(kind).playback.channels,
{
}

/// The pair a strip sends into leads to that strip's own gains.
pub proof fn a_send_arrives_at_its_own_gain(kind: Kind, strip: int)
    requires
        0 <= strip < STRIPS,
    ensures
        graph(kind).inputs[strip * 2] == gain_name("s"@, strip, "L"@) + ":In"@,
        graph(kind).inputs[strip * 2 + 1] == gain_name("s"@, strip, "R"@) + ":In"@,
        graph(kind).nodes.contains(chain::filter_line(gain(gain_name("s"@, strip, "L"@)))),
        graph(kind).nodes.contains(chain::filter_line(gain(gain_name("s"@, strip, "R"@)))),
{
    assert((strip * 2) / 2 == strip && (strip * 2 + 1) / 2 == strip);
    let nodes = graph(kind).nodes;
    assert(nodes[strip * 2] == send_gains()[strip * 2]);
    assert(nodes[strip * 2 + 1] == send_gains()[strip * 2 + 1]);
}

/// The pair a bus takes back comes from that bus's own gains.
pub proof fn a_return_leaves_from_its_own_gain(kind: Kind, bus: int)
    requires
        hands_back(kind),
        0 <= bus < BUSES,
    ensures
        graph(kind).outputs[bus * 2] == gain_name("r"@, bus, "L"@) + ":Out"@,
        graph(kind).outputs[bus * 2 + 1] == gain_name("r"@, bus, "R"@) + ":Out"@,
        graph(kind).nodes.contains(chain::filter_line(gain(gain_name("r"@, bus, "L"@)))),
        graph(kind).nodes.contains(chain::filter_line(gain(gain_name("r"@, bus, "R"@)))),
{
    assert((bus * 2) / 2 == bus && (bus * 2 + 1) / 2 == bus);
    let nodes = graph(kind).nodes;
    let head = send_gains().len() + 2 + effect_nodes(kind).len();
    assert(nodes[head + 1 + bus] == way_out(kind, "L"@)[1 + bus]);
    assert(nodes[head + way_out(kind, "L"@).len() + 1 + bus] == way_out(kind, "R"@)[1 + bus]);
}

/// The name of the filter a control belongs to: what stands before the
/// colon.
pub open spec fn node_of(control: Seq<char>) -> Seq<char> {
    control.take(text::up_to(control, ':'))
}

/// Whether a side is the left or the right one.
pub open spec fn is_side(side: Seq<char>) -> bool {
    side == "L"@ || side == "R"@
}

/// Whether a name is that of a gain on the way in, or of one on the way out.
pub open spec fn is_gain(list: Seq<char>, count: nat, name: Seq<char>) -> bool {
    exists|i: int, side: Seq<char>|
        0 <= i < count && is_side(side) && name == #[trigger] gain_name(list, i, side)
}

/// What a gain's name is made of: its list, digits, its side.
proof fn a_gain_name_is_plain(list: Seq<char>, index: int, side: Seq<char>)
    requires
        list == "s"@ || list == "r"@,
        is_side(side),
        0 <= index,
    ensures
        ({
            let name = gain_name(list, index, side);
            &&& labels::plain(name)
            &&& labels::unspaced(name)
            &&& !name.contains('\n')
            &&& !name.contains(':')
            &&& name.len() == text::decimal(index as nat).len() + 2
            &&& name[0] == list[0]
            &&& name.subrange(1, name.len() - 1) == text::decimal(index as nat)
        }),
{
    reveal_strlit("s");
    assert(labels::plain("s"@));
    reveal_strlit("r");
    assert(labels::plain("r"@));
    reveal_strlit("L");
    assert(labels::plain("L"@));
    reveal_strlit("R");
    assert(labels::plain("R"@));
    let digits = text::decimal(index as nat);
    let name = gain_name(list, index, side);
    labels::numbers_are_plain(index as nat);
    labels::plain_together(list, digits);
    labels::plain_together(list + digits, side);
    text::decimal_reads_back(index as nat);
    assert forall|i: int| 0 <= i < name.len() implies #[trigger] name[i] != ' ' && name[i] != '\n'
        && name[i] != ':' by {
        if 1 <= i < name.len() - 1 {
            assert(name[i] == digits[i - 1]);
            assert(text::is_digit(digits[i - 1]));
        }
    }
    assert(name.subrange(1, name.len() - 1) =~= digits);
}

/// Two gains of one name are one gain.
proof fn gains_are_told_apart(
    list: Seq<char>,
    index: int,
    side: Seq<char>,
    other_list: Seq<char>,
    other: int,
    other_side: Seq<char>,
)
    requires
        list == "s"@ || list == "r"@,
        other_list == "s"@ || other_list == "r"@,
        is_side(side),
        is_side(other_side),
        0 <= index,
        0 <= other,
        gain_name(list, index, side) == gain_name(other_list, other, other_side),
    ensures
        list == other_list,
        index == other,
{
    reveal_strlit("s");
    reveal_strlit("r");
    a_gain_name_is_plain(list, index, side);
    a_gain_name_is_plain(other_list, other, other_side);
    text::decimal_is_injective(index as nat, other as nat);
}

/// A gain on the way in or out is plainly described.
proof fn a_gain_is_tidy(list: Seq<char>, index: int, side: Seq<char>)
    requires
        list == "s"@ || list == "r"@,
        is_side(side),
        0 <= index,
    ensures
        labels::tidy(gain(gain_name(list, index, side))),
{
    reveal_strlit("linear");
    assert(labels::plain("linear"@));
    reveal_strlit("Mult");
    assert(labels::plain("Mult"@));
    reveal_strlit("0.0");
    assert(labels::plain("0.0"@));
    reveal_strlit("Add");
    assert(labels::plain("Add"@));
    a_gain_name_is_plain(list, index, side);
    labels::quotes_are_plain("Mult"@);
    labels::quotes_are_plain("Add"@);
    labels::settings_are_plain(gain(gain_name(list, index, side)).controls);
}

/// A sum is plainly described.
proof fn a_sum_is_tidy(side: Seq<char>)
    requires
        is_side(side),
    ensures
        labels::tidy(sum(side)),
{
    reveal_strlit("sum");
    assert(labels::plain("sum"@));
    reveal_strlit("L");
    assert(labels::plain("L"@));
    reveal_strlit("R");
    assert(labels::plain("R"@));
    reveal_strlit("mixer");
    assert(labels::plain("mixer"@));
    reveal_strlit("Gain ");
    assert(labels::plain("Gain "@));
    reveal_strlit("1.0");
    assert(labels::plain("1.0"@));
    labels::plain_together("sum"@, side);
    let controls = sum(side).controls;
    assert forall|k: int| 0 <= k < controls.len() implies labels::plain(
        chain::quoted((#[trigger] controls[k]).0),
    ) && labels::plain(controls[k].1) by {
        labels::numbers_are_plain((k + 1) as nat);
        labels::plain_together("Gain "@, text::decimal((k + 1) as nat));
        labels::quotes_are_plain("Gain "@ + text::decimal((k + 1) as nat));
    }
    labels::settings_are_plain(controls);
}

/// Nothing that an effect itself is made of is named as a gain.
proof fn no_effect_names_a_gain(kind: Kind, k: int, name: Seq<char>)
    requires
        0 <= k < effect_nodes(kind).len(),
        labels::unspaced(name),
    ensures
        !text::occurs(effect_nodes(kind)[k], labels::mention(name, "linear"@)),
{
    reveal_strlit("linear");
    let line = effect_nodes(kind)[k];
    let piece = labels::mention(name, "linear"@);
    match kind {
        Kind::Reverb => {
            reveal_strlit("caps");
            assert(labels::plain("caps"@));
            reveal_strlit("verb");
            assert(labels::plain("verb"@));
            reveal_strlit("Plate");
            assert(labels::plain("Plate"@));
            reveal_strlit("0.25");
            assert(labels::plain("0.25"@));
            reveal_strlit("0.5");
            assert(labels::plain("0.5"@));
            reveal_strlit("0.75");
            assert(labels::plain("0.75"@));
            reveal_strlit("tail");
            assert(labels::plain("tail"@));
            reveal_strlit("damping");
            assert(labels::plain("damping"@));
            let controls = seq![
                ("blend"@, "0.25"@),
                ("tail"@, "0.5"@),
                ("damping"@, "0.25"@),
                ("bandwidth"@, "0.75"@),
            ];
            labels::quotes_are_plain("tail"@);
            labels::quotes_are_plain("damping"@);
            reveal_strlit("\"");
            reveal_strlit("blend");
            reveal_strlit("bandwidth");
            assert(labels::plain(chain::quoted("blend"@)));
            assert(labels::plain(chain::quoted("bandwidth"@)));
            labels::settings_are_plain(controls);
            let f = chain::ladspa("caps"@, "verb"@, "Plate"@, controls);
            assert(labels::tidy(f));
            if text::occurs(line, piece) {
                labels::a_filter_is_named_once(f, name, "linear"@);
            }
        },
        Kind::Delay => {
            reveal_strlit("dlyL");
            assert(labels::plain("dlyL"@));
            reveal_strlit("dlyR");
            assert(labels::plain("dlyR"@));
            reveal_strlit("delay");
            assert(labels::plain("delay"@));
            reveal_strlit("Delay (s)");
            assert(labels::plain("Delay (s)"@));
            reveal_strlit("Feedback");
            assert(labels::plain("Feedback"@));
            reveal_strlit("0.25");
            assert(labels::plain("0.25"@));
            reveal_strlit("0.3");
            assert(labels::plain("0.3"@));
            let controls = seq![("Delay (s)"@, "0.25"@), ("Feedback"@, "0.3"@)];
            labels::quotes_are_plain("Delay (s)"@);
            labels::quotes_are_plain("Feedback"@);
            labels::settings_are_plain(controls);
            let f = chain::builtin(
                if k == 0 {
                    "dlyL"@
                } else {
                    "dlyR"@
                },
                "delay"@,
                controls,
            );
            assert(labels::tidy(f));
            if text::occurs(line, piece) {
                labels::a_filter_is_named_once(f, name, "linear"@);
            }
        },
        _ => {
            reveal_strlit("");
            assert(labels::plain(""@));
            labels::a_plain_line_mentions_nothing(line, name, "linear"@);
        },
    }
}

/// Whatever on the way out names a gain describes that gain.
proof fn the_way_out_names_its_gains(kind: Kind, side: Seq<char>, k: int, name: Seq<char>)
    requires
        is_side(side),
        0 <= k < way_out(kind, side).len(),
        labels::unspaced(name),
        text::occurs(way_out(kind, side)[k], labels::mention(name, "linear"@)),
    ensures
        hands_back(kind),
        is_gain("r"@, BUSES as nat, name),
{
    reveal_strlit("linear");
    if k == 0 {
        reveal_strlit("out");
        assert(labels::plain("out"@));
        reveal_strlit("L");
        assert(labels::plain("L"@));
        reveal_strlit("R");
        assert(labels::plain("R"@));
        reveal_strlit("copy");
        assert(labels::plain("copy"@));
        labels::plain_together("out"@, side);
        let f = chain::builtin("out"@ + side, "copy"@, seq![]);
        labels::settings_are_plain(f.controls);
        labels::a_filter_is_named_once(f, name, "linear"@);
    } else {
        a_gain_is_tidy("r"@, k - 1, side);
        labels::a_filter_is_named_once(gain(gain_name("r"@, k - 1, side)), name, "linear"@);
        assert(name == gain_name("r"@, k - 1, side));
    }
}

/// Whatever filter of an effect is named as a gain is one of the gains.
proof fn only_gains_are_named(kind: Kind, k: int, name: Seq<char>)
    requires
        0 <= k < all_nodes(kind).len(),
        labels::unspaced(name),
        text::occurs(all_nodes(kind)[k], labels::mention(name, "linear"@)),
    ensures
        is_gain("s"@, STRIPS as nat, name) || hands_back(kind) && is_gain("r"@, BUSES as nat, name),
{
    reveal_strlit("linear");
    reveal_strlit("mixer");
    let sends = send_gains().len() as int;
    let effects = effect_nodes(kind).len() as int;
    let left = way_out(kind, "L"@).len() as int;
    let line = all_nodes(kind)[k];
    if k < sends {
        let side = side_of(k);
        assert(line == send_gains()[k]);
        a_gain_is_tidy("s"@, k / 2, side);
        labels::a_filter_is_named_once(gain(channel_gain("s"@, k)), name, "linear"@);
        assert(name == gain_name("s"@, k / 2, side));
    } else if k < sends + 2 {
        let side = side_of(k - sends);
        assert(line == chain::filter_line(sum(side)));
        a_sum_is_tidy(side);
        labels::a_filter_is_named_once(sum(side), name, "linear"@);
    } else if k < sends + 2 + effects {
        assert(line == effect_nodes(kind)[k - sends - 2]);
        no_effect_names_a_gain(kind, k - sends - 2, name);
    } else if k < sends + 2 + effects + left {
        assert(line == way_out(kind, "L"@)[k - sends - 2 - effects]);
        the_way_out_names_its_gains(kind, "L"@, k - sends - 2 - effects, name);
    } else {
        assert(line == way_out(kind, "R"@)[k - sends - 2 - effects - left]);
        the_way_out_names_its_gains(kind, "R"@, k - sends - 2 - effects - left, name);
    }
}

/// An effect's name has no label in it.
proof fn names_are_plain(kind: Kind)
    ensures
        labels::plain(node_name(kind)),
{
    match kind {
        Kind::Reverb => {
            reveal_strlit("pipemeter_reverb");
            assert(labels::plain("pipemeter_reverb"@));
        },
        Kind::Delay => {
            reveal_strlit("pipemeter_delay");
            assert(labels::plain("pipemeter_delay"@));
        },
        Kind::External1 => {
            reveal_strlit("pipemeter_extfx1");
            assert(labels::plain("pipemeter_extfx1"@));
        },
        Kind::External2 => {
            reveal_strlit("pipemeter_extfx2");
            assert(labels::plain("pipemeter_extfx2"@));
        },
        Kind::Return1 => {
            reveal_strlit("pipemeter_extret1");
            assert(labels::plain("pipemeter_extret1"@));
        },
        Kind::Return2 => {
            reveal_strlit("pipemeter_extret2");
            assert(labels::plain("pipemeter_extret2"@));
        },
    }
}

/// The port of a channel's gain has no label in it.
proof fn a_channel_port_is_plain(list: Seq<char>, channel: int, port: Seq<char>)
    requires
        list == "s"@ || list == "r"@,
        0 <= channel,
        labels::plain(port),
    ensures
        labels::plain(channel_gain(list, channel) + port),
{
    a_gain_name_is_plain(list, channel / 2, side_of(channel));
    labels::plain_together(channel_gain(list, channel), port);
}

proof fn inputs_are_plain()
    ensures
        labels::all_plain(all_inputs()),
{
    reveal_strlit(":In");
    assert(labels::plain(":In"@));
    let inputs = all_inputs();
    assert forall|i: int| 0 <= i < inputs.len() implies labels::plain(#[trigger] inputs[i]) by {
        a_channel_port_is_plain("s"@, i, ":In"@);
    }
}

proof fn outputs_are_plain(kind: Kind)
    ensures
        labels::all_plain(all_outputs(kind)),
{
    let outputs = all_outputs(kind);
    if hands_back(kind) {
        reveal_strlit(":Out");
        assert(labels::plain(":Out"@));
        assert forall|i: int| 0 <= i < outputs.len() implies labels::plain(
            #[trigger] outputs[i],
        ) by {
            a_channel_port_is_plain("r"@, i, ":Out"@);
        }
    } else {
        reveal_strlit("outL:Out");
        reveal_strlit("outR:Out");
        assert(labels::plain("outL:Out"@));
        assert(labels::plain("outR:Out"@));
    }
}

proof fn links_are_plain(kind: Kind)
    ensures
        labels::all_plain(all_links(kind)),
{
    let sums = summed("L"@) + summed("R"@);
    sums_are_plain("L"@);
    sums_are_plain("R"@);
    effect_links_are_plain(kind);
    returns_are_plain(kind, "L"@);
    returns_are_plain(kind, "R"@);
    labels::all_plain_together(summed("L"@), summed("R"@));
    labels::all_plain_together(sums, effect_links(kind));
    labels::all_plain_together(sums + effect_links(kind), handed_back(kind, "L"@));
    labels::all_plain_together(
        sums + effect_links(kind) + handed_back(kind, "L"@),
        handed_back(kind, "R"@),
    );
}

proof fn sums_are_plain(side: Seq<char>)
    requires
        is_side(side),
    ensures
        labels::all_plain(summed(side)),
{
    reveal_strlit("sum");
    assert(labels::plain("sum"@));
    reveal_strlit(":In ");
    assert(labels::plain(":In "@));
    reveal_strlit(":Out");
    assert(labels::plain(":Out"@));
    reveal_strlit("L");
    assert(labels::plain("L"@));
    reveal_strlit("R");
    assert(labels::plain("R"@));
    let list = summed(side);
    assert forall|i: int| 0 <= i < list.len() implies labels::plain(#[trigger] list[i]) by {
        let number = text::decimal((i + 1) as nat);
        a_gain_name_is_plain("s"@, i, side);
        labels::plain_together(gain_name("s"@, i, side), ":Out"@);
        labels::numbers_are_plain((i + 1) as nat);
        labels::plain_together("sum"@, side);
        labels::plain_together("sum"@ + side, ":In "@);
        labels::plain_together("sum"@ + side + ":In "@, number);
        labels::wires_are_plain(
            gain_name("s"@, i, side) + ":Out"@,
            "sum"@ + side + ":In "@ + number,
        );
    }
}

proof fn returns_are_plain(kind: Kind, side: Seq<char>)
    requires
        is_side(side),
    ensures
        labels::all_plain(handed_back(kind, side)),
{
    reveal_strlit("out");
    assert(labels::plain("out"@));
    reveal_strlit(":Out");
    assert(labels::plain(":Out"@));
    reveal_strlit(":In");
    assert(labels::plain(":In"@));
    reveal_strlit("L");
    assert(labels::plain("L"@));
    reveal_strlit("R");
    assert(labels::plain("R"@));
    let list = handed_back(kind, side);
    assert forall|i: int| 0 <= i < list.len() implies labels::plain(#[trigger] list[i]) by {
        a_gain_name_is_plain("r"@, i, side);
        labels::plain_together(gain_name("r"@, i, side), ":In"@);
        labels::plain_together("out"@, side);
        labels::plain_together("out"@ + side, ":Out"@);
        labels::wires_are_plain("out"@ + side + ":Out"@, gain_name("r"@, i, side) + ":In"@);
    }
}

proof fn effect_links_are_plain(kind: Kind)
    ensures
        labels::all_plain(effect_links(kind)),
{
    reveal_strlit("sumL:Out");
    assert(labels::plain("sumL:Out"@));
    reveal_strlit("sumR:Out");
    assert(labels::plain("sumR:Out"@));
    reveal_strlit("verb:in");
    assert(labels::plain("verb:in"@));
    reveal_strlit("verb:out.l");
    assert(labels::plain("verb:out.l"@));
    reveal_strlit("verb:out.r");
    assert(labels::plain("verb:out.r"@));
    reveal_strlit("outL:In");
    assert(labels::plain("outL:In"@));
    reveal_strlit("outR:In");
    assert(labels::plain("outR:In"@));
    reveal_strlit("dlyL:In");
    assert(labels::plain("dlyL:In"@));
    reveal_strlit("dlyR:In");
    assert(labels::plain("dlyR:In"@));
    reveal_strlit("dlyL:Out");
    assert(labels::plain("dlyL:Out"@));
    reveal_strlit("dlyR:Out");
    assert(labels::plain("dlyR:Out"@));
    labels::wires_are_plain("sumL:Out"@, "verb:in"@);
    labels::wires_are_plain("verb:out.l"@, "outL:In"@);
    labels::wires_are_plain("verb:out.r"@, "outR:In"@);
    labels::wires_are_plain("sumL:Out"@, "dlyL:In"@);
    labels::wires_are_plain("sumR:Out"@, "dlyR:In"@);
    labels::wires_are_plain("dlyL:Out"@, "outL:In"@);
    labels::wires_are_plain("dlyR:Out"@, "outR:In"@);
    labels::wires_are_plain("sumL:Out"@, "outL:In"@);
    labels::wires_are_plain("sumR:Out"@, "outR:In"@);
}

/// A control's name is that of its gain and what is set on it.
proof fn a_control_belongs_to_its_gain(list: Seq<char>, index: int, side: Seq<char>)
    requires
        list == "s"@ || list == "r"@,
        is_side(side),
        0 <= index,
    ensures
        node_of(gain_name(list, index, side) + ":Mult"@) == gain_name(list, index, side),
{
    reveal_strlit(":Mult");
    let name = gain_name(list, index, side);
    let control = name + ":Mult"@;
    a_gain_name_is_plain(list, index, side);
    text::up_to_is_first(control, ':');
    let at = text::up_to(control, ':');
    assert(control[name.len() as int] == ':');
    if at < name.len() {
        assert(name[at] == ':');
        assert(name.contains(':'));
    }
    assert(control.take(at) =~= name);
}

/// Every control that a strip's send goes by belongs to a gain of the file,
/// and so does every one that a bus's return goes by where the effect hands
/// its result back. No other strip or bus has one.
pub proof fn every_control_has_a_gain_of_its_own(kind: Kind, index: nat, side: Seq<char>)
    requires
        side == "L"@ || side == "R"@,
    ensures
        labels::has_filter(
            chain::file(graph(kind)),
            node_of(gain_name("s"@, index as int, side) + ":Mult"@),
            "linear"@,
        ) == (index < STRIPS),
        labels::has_filter(
            chain::file(graph(kind)),
            node_of(gain_name("r"@, index as int, side) + ":Mult"@),
            "linear"@,
        ) == (index < BUSES && hands_back(kind)),
{
    let i = index as int;
    let (send, back) = (gain_name("s"@, i, side), gain_name("r"@, i, side));
    let nodes = all_nodes(kind);
    a_gain_is_named_by_a_filter(kind, "s"@, i, side);
    a_gain_is_named_by_a_filter(kind, "r"@, i, side);
    a_control_belongs_to_its_gain("s"@, i, side);
    a_control_belongs_to_its_gain("r"@, i, side);
    if index < STRIPS {
        a_send_arrives_at_its_own_gain(kind, i);
        a_gain_that_is_there_is_named(nodes, send);
    }
    if index < BUSES && hands_back(kind) {
        a_return_leaves_from_its_own_gain(kind, i);
        a_gain_that_is_there_is_named(nodes, back);
    }
    if some_filter_names(nodes, send) {
        a_gain_that_is_named_is_there(kind, "s"@, i, side);
    }
    if some_filter_names(nodes, back) {
        a_gain_that_is_named_is_there(kind, "r"@, i, side);
    }
}

/// A gain is named in an effect's file where one of its filters is
/// described with the gain's name.
proof fn a_gain_is_named_by_a_filter(kind: Kind, list: Seq<char>, index: int, side: Seq<char>)
    requires
        list == "s"@ || list == "r"@,
        is_side(side),
        0 <= index,
    ensures
        ({
            let name = gain_name(list, index, side);
            labels::has_filter(chain::file(graph(kind)), name, "linear"@) == some_filter_names(
                all_nodes(kind),
                name,
            )
        }),
{
    reveal_strlit("linear");
    reveal_strlit("PipeMeter FX");
    assert(labels::plain("PipeMeter FX"@));
    names_are_plain(kind);
    links_are_plain(kind);
    inputs_are_plain();
    outputs_are_plain(kind);
    a_gain_name_is_plain(list, index, side);
    labels::a_file_names_its_filters(graph(kind), gain_name(list, index, side), "linear"@);
}

/// Whether one of some filters is described as a gain of a name.
pub open spec fn some_filter_names(nodes: Seq<Seq<char>>, name: Seq<char>) -> bool {
    exists|k: int|
        0 <= k < nodes.len() && #[trigger] text::occurs(nodes[k], labels::mention(name, "linear"@))
}

/// A gain that is among the filters is named by one.
proof fn a_gain_that_is_there_is_named(nodes: Seq<Seq<char>>, name: Seq<char>)
    requires
        nodes.contains(chain::filter_line(gain(name))),
    ensures
        some_filter_names(nodes, name),
{
    let k = nodes.index_of(chain::filter_line(gain(name)));
    labels::a_filter_names_itself(gain(name));
    assert(text::occurs(nodes[k], labels::mention(name, "linear"@)));
}

/// A gain that is named is one of those of the strips, or of the buses where
/// the effect hands its result back.
proof fn a_gain_that_is_named_is_there(kind: Kind, list: Seq<char>, index: int, side: Seq<char>)
    requires
        list == "s"@ || list == "r"@,
        is_side(side),
        0 <= index,
        some_filter_names(all_nodes(kind), gain_name(list, index, side)),
    ensures
        index < STRIPS,
        list == "r"@ ==> hands_back(kind),
{
    let name = gain_name(list, index, side);
    let nodes = all_nodes(kind);
    let k = choose|k: int|
        0 <= k < nodes.len() && #[trigger] text::occurs(
            nodes[k],
            labels::mention(name, "linear"@),
        );
    a_gain_name_is_plain(list, index, side);
    only_gains_are_named(kind, k, name);
    if is_gain("s"@, STRIPS as nat, name) {
        a_gain_of_a_list_is_in_it(list, index, side, "s"@);
        reveal_strlit("s");
        reveal_strlit("r");
    } else {
        a_gain_of_a_list_is_in_it(list, index, side, "r"@);
    }
}

/// A gain named like one of a list is of that list, and within its number.
proof fn a_gain_of_a_list_is_in_it(
    list: Seq<char>,
    index: int,
    side: Seq<char>,
    other: Seq<char>,
)
    requires
        list == "s"@ || list == "r"@,
        other == "s"@ || other == "r"@,
        is_side(side),
        0 <= index,
        is_gain(other, STRIPS as nat, gain_name(list, index, side)),
    ensures
        list == other,
        index < STRIPS,
{
    let name = gain_name(list, index, side);
    let (i, other_side) = choose|i: int, other_side: Seq<char>|
        0 <= i < STRIPS && is_side(other_side) && name == #[trigger] gain_name(
            other,
            i,
            other_side,
        );
    gains_are_told_apart(list, index, side, other, i, other_side);
}

/// No two effects share a name.
pub proof fn effects_have_names_of_their_own(a: Kind, b: Kind)
    requires
        a != b,
    ensures
        node_name(a) != node_name(b),
{
    reveal_strlit("pipemeter_reverb");
    reveal_strlit("pipemeter_delay");
    reveal_strlit("pipemeter_extfx1");
    reveal_strlit("pipemeter_extfx2");
    reveal_strlit("pipemeter_extret1");
    reveal_strlit("pipemeter_extret2");
    let last = |s: Seq<char>| (s.len(), s[10], s.last());
    assert(last(node_name(a)) != last(node_name(b)));
}

/// Both ends of every effect's chain are recognised as ours.
pub proof fn effects_are_recognised(kind: Kind)
    ensures
        eq::is_endpoint("input."@ + node_name(kind)),
        eq::is_endpoint("output."@ + node_name(kind)),
{
    reveal_strlit("pipemeter_reverb");
    reveal_strlit("pipemeter_delay");
    reveal_strlit("pipemeter_extfx1");
    reveal_strlit("pipemeter_extfx2");
    reveal_strlit("pipemeter_extret1");
    reveal_strlit("pipemeter_extret2");
    reveal_strlit("pipemeter_");
    let name = node_name(kind);
    let rest = name.skip(10);
    assert(name =~= "pipemeter_"@ + rest);
    eq::chains_of_ours_are_recognised(rest);
}

/// Every strip's send goes through its own gain into its own place of the
/// sum, left into left and right into right; the sum goes through the
/// effect; and where the effect hands anything back, what comes out of it
/// goes into a gain for each bus. There is no other link.
pub proof fn a_send_goes_through_to_the_buses(kind: Kind, strip: int, bus: int)
    requires
        0 <= strip < 8,
        0 <= bus < 8,
    ensures
        ({
            let g = graph(kind);
            let links = g.links->Some_0;
            let back = kind != Kind::External1 && kind != Kind::External2;
            let through = match kind {
                Kind::Reverb => seq![
                    chain::wire("sumL:Out"@, "verb:in"@),
                    chain::wire("verb:out.l"@, "outL:In"@),
                    chain::wire("verb:out.r"@, "outR:In"@),
                ],
                Kind::Delay => seq![
                    chain::wire("sumL:Out"@, "dlyL:In"@),
                    chain::wire("sumR:Out"@, "dlyR:In"@),
                    chain::wire("dlyL:Out"@, "outL:In"@),
                    chain::wire("dlyR:Out"@, "outR:In"@),
                ],
                _ => seq![
                    chain::wire("sumL:Out"@, "outL:In"@),
                    chain::wire("sumR:Out"@, "outR:In"@),
                ],
            };
            let n = through.len() as int;
            &&& g.links is Some
            &&& links[strip] == chain::wire(
                "s"@ + text::decimal(strip as nat) + "L"@ + ":Out"@,
                "sum"@ + "L"@ + ":In "@ + text::decimal((strip + 1) as nat),
            )
            &&& links[8 + strip] == chain::wire(
                "s"@ + text::decimal(strip as nat) + "R"@ + ":Out"@,
                "sum"@ + "R"@ + ":In "@ + text::decimal((strip + 1) as nat),
            )
            &&& links.subrange(16, 16 + n) == through
            &&& back ==> links[16 + n + bus] == chain::wire(
                "out"@ + "L"@ + ":Out"@,
                "r"@ + text::decimal(bus as nat) + "L"@ + ":In"@,
            )
            &&& back ==> links[24 + n + bus] == chain::wire(
                "out"@ + "R"@ + ":Out"@,
                "r"@ + text::decimal(bus as nat) + "R"@ + ":In"@,
            )
            &&& links.len() == 16 + n + (if back {
                16int
            } else {
                0
            })
        }),
{
    let links = all_links(kind);
    let through = effect_links(kind);
    assert(links[strip] == summed("L"@)[strip]);
    assert(links[8 + strip] == summed("R"@)[strip]);
    assert(links.subrange(16, (16 + through.len()) as int) =~= through);
    if hands_back(kind) {
        assert(links[16 + through.len() + bus] == handed_back(kind, "L"@)[bus]);
        assert(links[24 + through.len() + bus] == handed_back(kind, "R"@)[bus]);
    }
}

/// An effect's filters stand in this order: a gain for each side of each
/// strip, shut to begin with; a sum for each side that takes every strip as
/// it comes; the effect itself; and for each side the way out, with a gain
/// for each bus, shut to begin with, where anything is handed back.
pub proof fn an_effect_is_made_of_these(kind: Kind, strip: int, bus: int)
    requires
        0 <= strip < 8,
        0 <= bus < 8,
    ensures
        ({
            let nodes = graph(kind).nodes;
            let back = kind != Kind::External1 && kind != Kind::External2;
            let shut = seq![("Mult"@, "0.0"@), ("Add"@, "0.0"@)];
            let ones = Seq::new(8, |i: int| ("Gain "@ + text::decimal((i + 1) as nat), "1.0"@));
            let echo = seq![("Delay (s)"@, "0.25"@), ("Feedback"@, "0.3"@)];
            let own = match kind {
                Kind::Reverb => seq![
                    chain::filter_line(
                        chain::ladspa(
                            "caps"@,
                            "verb"@,
                            "Plate"@,
                            seq![
                                ("blend"@, "0.25"@),
                                ("tail"@, "0.5"@),
                                ("damping"@, "0.25"@),
                                ("bandwidth"@, "0.75"@),
                            ],
                        ),
                    ),
                ],
                Kind::Delay => seq![
                    chain::filter_line(chain::builtin("dlyL"@, "delay"@, echo)),
                    chain::filter_line(chain::builtin("dlyR"@, "delay"@, echo)),
                ],
                _ => seq![""@],
            };
            let n = own.len() as int;
            let out = if back {
                9int
            } else {
                1
            };
            &&& nodes[2 * strip] == chain::filter_line(
                chain::builtin("s"@ + text::decimal(strip as nat) + "L"@, "linear"@, shut),
            )
            &&& nodes[2 * strip + 1] == chain::filter_line(
                chain::builtin("s"@ + text::decimal(strip as nat) + "R"@, "linear"@, shut),
            )
            &&& nodes[16] == chain::filter_line(chain::builtin("sum"@ + "L"@, "mixer"@, ones))
            &&& nodes[17] == chain::filter_line(chain::builtin("sum"@ + "R"@, "mixer"@, ones))
            &&& nodes.subrange(18, 18 + n) == own
            &&& nodes[18 + n] == chain::filter_line(
                chain::builtin("out"@ + "L"@, "copy"@, seq![]),
            )
            &&& nodes[18 + n + out] == chain::filter_line(
                chain::builtin("out"@ + "R"@, "copy"@, seq![]),
            )
            &&& back ==> nodes[19 + n + bus] == chain::filter_line(
                chain::builtin("r"@ + text::decimal(bus as nat) + "L"@, "linear"@, shut),
            )
            &&& back ==> nodes[28 + n + bus] == chain::filter_line(
                chain::builtin("r"@ + text::decimal(bus as nat) + "R"@, "linear"@, shut),
            )
            &&& nodes.len() == 18 + n + 2 * out
        }),
{
    let nodes = all_nodes(kind);
    let own = effect_nodes(kind);
    let n = own.len() as int;
    let ones = Seq::new(8, |i: int| ("Gain "@ + text::decimal((i + 1) as nat), "1.0"@));
    assert(sum("L"@).controls =~= ones);
    assert(sum("R"@).controls =~= ones);
    assert((2 * strip) / 2 == strip && (2 * strip) % 2 == 0);
    assert((2 * strip + 1) / 2 == strip && (2 * strip + 1) % 2 == 1);
    assert(nodes[2 * strip] == send_gains()[2 * strip]);
    assert(nodes[2 * strip + 1] == send_gains()[2 * strip + 1]);
    assert(nodes.subrange(18, 18 + n) =~= own);
    assert(nodes[18 + n] == way_out(kind, "L"@)[0]);
    if hands_back(kind) {
        assert(nodes[27 + n] == way_out(kind, "R"@)[0]);
        assert(nodes[19 + n + bus] == way_out(kind, "L"@)[1 + bus]);
        assert(nodes[28 + n + bus] == way_out(kind, "R"@)[1 + bus]);
    } else {
        assert(nodes[19 + n] == way_out(kind, "R"@)[0]);
    }
}

/// An effect goes by its own name, takes a pair for each strip and gives a
/// pair for each bus, or one pair where nothing is handed back.
pub proof fn an_effect_has_a_pair_for_each(kind: Kind)
    ensures
        ({
            let g = graph(kind);
            let back = kind != Kind::External1 && kind != Kind::External2;
            &&& g.name == (match kind {
                Kind::Reverb => "pipemeter_reverb"@,
                Kind::Delay => "pipemeter_delay"@,
                Kind::External1 => "pipemeter_extfx1"@,
                Kind::External2 => "pipemeter_extfx2"@,
                Kind::Return1 => "pipemeter_extret1"@,
                Kind::Return2 => "pipemeter_extret2"@,
            })
            &&& g.description == "PipeMeter FX"@
            &&& !g.media
            &&& g.capture.channels == 16
            &&& g.capture.passive == Some(true)
            &&& g.playback.channels == (if back {
                16int
            } else {
                2
            })
            &&& g.playback.passive is None
            &&& !back ==> g.outputs == seq!["outL:Out"@, "outR:Out"@]
        }),
{
}

/// A strip's send is turned by the gains it arrives at, and a bus's return by
/// the gains it leaves from, left then right, and each uses its own pair.
pub proof fn a_knob_turns_its_own_gains(
    index: usize,
    sent: [String; 2],
    returned: [String; 2],
    into: u32,
    back: u32,
)
    requires
        call_ensures(send_control, (index,), sent),
        call_ensures(return_control, (index,), returned),
        call_ensures(send_pair, (index,), into),
        call_ensures(return_pair, (index,), back),
        index <= u32::MAX,
    ensures
        sent@[0]@ == "s"@ + text::decimal(index as nat) + "L"@ + ":Mult"@,
        sent@[1]@ == "s"@ + text::decimal(index as nat) + "R"@ + ":Mult"@,
        returned@[0]@ == "r"@ + text::decimal(index as nat) + "L"@ + ":Mult"@,
        returned@[1]@ == "r"@ + text::decimal(index as nat) + "R"@ + ":Mult"@,
        into == index,
        back == index,
{
}

/// Only the external sends hand nothing back, only the external returns take
/// nothing from the strips, and only our own two effects have a preset.
pub proof fn what_each_effect_does(
    kind: Kind,
    hands: bool,
    takes: bool,
    preset: bool,
)
    requires
        call_ensures(Kind::returns_to_buses, (kind,), hands),
        call_ensures(Kind::takes_strip_sends, (kind,), takes),
        call_ensures(Kind::has_preset, (kind,), preset),
    ensures
        hands == !(kind == Kind::External1 || kind == Kind::External2),
        takes == !(kind == Kind::Return1 || kind == Kind::Return2),
        preset ==> hands && takes,
        hands && takes ==> preset,
{
}

} // verus!
