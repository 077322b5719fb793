//! One strip's send into one effect, as its own small stereo chain.
//!
//! `filter-chain` processes the first pair of a multi-input graph and
//! silently ignores the rest, so a send is a chain of its own: two channels,
//! one `linear` node carrying the level, output into the effect's input.
//! That is the shape the equalisers already use and the only one measured to
//! work: a `Mult` of 1.0 passes -8.73 dBFS unchanged, 0.5 gives -14.75, and
//! 0.0 is silence.
//!
//! They are created when a level first becomes audible and dropped when
//! it returns to zero, because eight strips into four effects would
//! otherwise be thirty-two helpers running to carry silence.
//!
//! Neither end is passive. A passive node only follows, and a path made
//! entirely of followers (strip chain, send, effect, return, bus) has
//! nothing to schedule it. The return in particular has to *pull* the
//! effect, or the effect sits suspended and the whole path is silent.

use vstd::prelude::*;

use crate::props;
use crate::single::Single;
use crate::text;

use super::chain::{self, Graph, GraphText, Side};
use super::eq;

verus! {

/// The control carrying the level, as filter-chain addresses it.
pub const LEVEL: &'static str = "g:Mult";

/// What a send chain is called.
pub open spec fn named(strip: nat, effect: Seq<char>) -> Seq<char> {
    "pipemeter_send"@ + text::decimal(strip) + "_"@ + effect
}

/// What a send chain is called: the strip it comes from and the effect it
/// feeds, so a leftover one can be recognised and killed.
#[must_use]
pub fn node_name(strip: usize, effect: &str) -> (name: String)
    ensures
        name@ == named(strip as nat, effect@),
{
    let mut name = text::cat3("pipemeter_send", text::number(strip as u64).as_str(), "_");
    name.append(effect);
    name
}

/// The level a send is started at: never more than all of it, never less
/// than nothing.
#[must_use]
pub fn bounded(level: Single) -> (r: Single)
    ensures
        r == level.held_to_unit(),
{
    level.clamp_unit()
}

/// The graph of a send.
pub open spec fn graph(name: Seq<char>, level: Seq<char>) -> GraphText {
    GraphText {
        name,
        description: "PipeMeter send"@,
        media: true,
        nodes: seq![
            chain::filter_line(
                chain::builtin("g"@, "linear"@, seq![("Mult"@, level), ("Add"@, "0.0"@)]),
            ),
        ],
        links: None,
        inputs: seq!["g:In"@],
        outputs: seq!["g:Out"@],
        capture: Side { channels: 2, passive: Some(false) },
        playback: Side { channels: 2, passive: Some(false) },
    }
}

/// The chain: one gain node, stereo in, stereo out, connected to nothing
/// until the router links it. `level` is the [`bounded`] level, written out.
pub fn config(name: &str, level: &str) -> (r: String)
    ensures
        r@ == chain::file(graph(name@, level@)),
{
    let mut controls = props::none();
    props::put(&mut controls, "Mult", level);
    props::put(&mut controls, "Add", "0.0");
    let mut nodes = text::blank();
    let mut inputs = text::blank();
    let mut outputs = text::blank();
    proof {
        assert(props::pairs(controls@) =~= seq![("Mult"@, level@), ("Add"@, "0.0"@)]);
    }
    text::write(&mut nodes, chain::builtin_filter("g", "linear", &controls));
    text::write(&mut inputs, "g:In".to_owned());
    text::write(&mut outputs, "g:Out".to_owned());
    proof {
        let want = graph(name@, level@);
        assert(text::texts(nodes@) =~= want.nodes);
        assert(text::texts(inputs@) =~= want.inputs);
        assert(text::texts(outputs@) =~= want.outputs);
    }
    let g = Graph {
        name: name.to_owned(),
        description: "PipeMeter send",
        media: true,
        nodes,
        links: None,
        inputs,
        outputs,
        capture: Side { channels: 2, passive: Some(false) },
        playback: Side { channels: 2, passive: Some(false) },
    };
    g.config()
}

// ---------------------------------------------------------------------
// Laws

/// No two sends share a name.
pub proof fn sends_have_names_of_their_own(a: nat, one: Seq<char>, b: nat, other: Seq<char>)
    requires
        named(a, one) == named(b, other),
    ensures
        a == b,
        one == other,
{
    reveal_strlit("_");
    let (m, n) = (text::decimal(a), text::decimal(b));
    let head = "pipemeter_send"@;
    text::decimal_reads_back(a);
    text::decimal_reads_back(b);
    let x = named(a, one).skip(head.len() as int);
    let y = named(b, other).skip(head.len() as int);
    assert(x =~= m + "_"@ + one);
    assert(y =~= n + "_"@ + other);
    assert(x[m.len() as int] == '_');
    assert(y[n.len() as int] == '_');
    if m.len() < n.len() {
        assert(y[m.len() as int] == n[m.len() as int]);
        assert(text::is_digit(n[m.len() as int]));
    }
    if n.len() < m.len() {
        assert(x[n.len() as int] == m[n.len() as int]);
        assert(text::is_digit(m[n.len() as int]));
    }
    assert(m =~= x.take(m.len() as int));
    assert(n =~= y.take(n.len() as int));
    text::decimal_is_injective(a, b);
    assert(one =~= x.skip(m.len() as int + 1));
    assert(other =~= y.skip(n.len() as int + 1));
}

/// Both ends of every send are recognised as ours.
pub proof fn sends_are_recognised(strip: nat, effect: Seq<char>)
    ensures
        eq::is_endpoint("input."@ + named(strip, effect)),
        eq::is_endpoint("output."@ + named(strip, effect)),
{
    reveal_strlit("pipemeter_send");
    reveal_strlit("pipemeter_");
    let name = named(strip, effect);
    let rest = name.skip(10);
    assert(name =~= "pipemeter_"@ + rest);
    eq::chains_of_ours_are_recognised(rest);
}

/// A send is one gain, set to its level, between one stereo pair and
/// another, with nothing linked inside and no following at either end.
pub proof fn a_send_is_one_gain(name: Seq<char>, level: Seq<char>)
    ensures
        ({
            let g = graph(name, level);
            &&& g.name == name
            &&& g.description == "PipeMeter send"@
            &&& g.media
            &&& g.nodes == seq![
                chain::filter_line(
                    chain::builtin("g"@, "linear"@, seq![("Mult"@, level), ("Add"@, "0.0"@)]),
                ),
            ]
            &&& g.links is None
            &&& g.inputs == seq!["g:In"@]
            &&& g.outputs == seq!["g:Out"@]
            &&& g.capture.channels == 2
            &&& g.playback.channels == 2
            &&& g.capture.passive == Some(false)
            &&& g.playback.passive == Some(false)
        }),
{
}

/// The control that a send's level is set by later is the one that its file
/// sets it by at the start, and a send is named by its strip and its effect.
pub proof fn a_send_is_set_by_its_gain(name: Seq<char>, level: Seq<char>, strip: nat)
    ensures
        LEVEL@ == "g"@ + ":"@ + "Mult"@,
        text::begins(graph(name, level).nodes[0], "          { type = builtin name = g"@),
        text::begins(named(strip, name), "pipemeter_send"@ + text::decimal(strip) + "_"@),
        text::ends(named(strip, name), "_"@ + name),
{
    reveal_strlit("g:Mult");
    reveal_strlit("g");
    reveal_strlit(":");
    reveal_strlit("Mult");
    assert(LEVEL@ =~= "g"@ + ":"@ + "Mult"@);
    let f = chain::builtin("g"@, "linear"@, seq![("Mult"@, level), ("Add"@, "0.0"@)]);
    chain::a_filter_line_says_it_all(f);
    reveal_strlit("          { type = builtin name = ");
    reveal_strlit("          { type = builtin name = g");
    let head = "          { type = builtin name = "@ + "g"@ + " label = "@ + "linear"@;
    let line = chain::filter_line(f);
    assert(line.subrange(0, head.len() as int) == head);
    assert("          { type = builtin name = g"@ =~= "          { type = builtin name = "@ + "g"@);
    let n = "          { type = builtin name = g"@.len() as int;
    assert(head.subrange(0, n) =~= "          { type = builtin name = g"@);
    assert(line.subrange(0, n) =~= head.subrange(0, n));
    let front = "pipemeter_send"@ + text::decimal(strip);
    text::what_was_put_in_is_there(front + "_"@, name, name);
    text::what_was_put_in_is_there(front, "_"@ + name, name);
    assert(named(strip, name) =~= front + ("_"@ + name));
}

} // verus!
