//! What every filter chain has in common.
//!
//! A chain is a `PipeWire` of its own running the `filter-chain` module on a
//! configuration file that is written for it. The file describes a graph:
//! some filters, the links between them, which of their ports the two nodes
//! outside are joined to, and how many channels each of those nodes has.
//! The equalisers, the effects and the sends differ in nothing else.

use vstd::prelude::*;

use crate::props;
use crate::text;

verus! {

/// A filter as the contracts see it.
pub struct Filter {
    /// The LADSPA plugin it comes from. Nothing where it is built in.
    pub plugin: Option<Seq<char>>,
    pub name: Seq<char>,
    pub label: Seq<char>,
    /// What its controls are set to when the chain starts.
    pub controls: Seq<(Seq<char>, Seq<char>)>,
}

/// A built-in filter.
pub open spec fn builtin(
    name: Seq<char>,
    label: Seq<char>,
    controls: Seq<(Seq<char>, Seq<char>)>,
) -> Filter {
    Filter { plugin: None, name, label, controls }
}

/// A filter out of a LADSPA plugin.
pub open spec fn ladspa(
    plugin: Seq<char>,
    name: Seq<char>,
    label: Seq<char>,
    controls: Seq<(Seq<char>, Seq<char>)>,
) -> Filter {
    Filter { plugin: Some(plugin), name, label, controls }
}

/// The settings of a filter's controls, as the file lists them.
pub open spec fn settings(controls: Seq<(Seq<char>, Seq<char>)>) -> Seq<char>
    decreases controls.len(),
{
    if controls.len() == 0 {
        seq![]
    } else {
        settings(controls.drop_last()) + " "@ + quoted(controls.last().0) + " = "@
            + controls.last().1
    }
}

/// The line that describes a filter.
pub open spec fn filter_line(f: Filter) -> Seq<char> {
    let head = match f.plugin {
        None => "          { type = builtin name = "@ + f.name,
        Some(plugin) => "          { type = ladspa name = "@ + f.name + " plugin = "@ + plugin,
    };
    let labelled = head + " label = "@ + f.label;
    if f.controls.len() == 0 {
        labelled + " }"@
    } else {
        labelled + " control = {"@ + settings(f.controls) + " } }"@
    }
}

/// The line that joins one port of a filter to one of another.
pub open spec fn wire(from: Seq<char>, to: Seq<char>) -> Seq<char> {
    "          { output = "@ + quoted(from) + " input = "@ + quoted(to) + " }"@
}

fn write_settings(controls: &Vec<(String, String)>) -> (r: String)
    ensures
        r@ == settings(props::pairs(controls@)),
{
    let mut r = String::new();
    let ghost all = props::pairs(controls@);
    for i in 0..controls.len()
        invariant
            all == props::pairs(controls@),
            r@ == settings(all.take(i as int)),
    {
        r.append(" ");
        r.append(quote(controls[i].0.as_str()).as_str());
        r.append(" = ");
        r.append(controls[i].1.as_str());
        proof {
            assert(all.take(i + 1).drop_last() =~= all.take(i as int));
            assert(all.take(i + 1).last() == (controls@[i as int].0@, controls@[i as int].1@));
        }
    }
    proof {
        assert(all.take(controls@.len() as int) =~= all);
    }
    r
}

fn write_filter(head: String, label: &str, controls: &Vec<(String, String)>) -> (line: String)
    ensures
        line@ == (if controls@.len() == 0 {
            head@ + " label = "@ + label@ + " }"@
        } else {
            head@ + " label = "@ + label@ + " control = {"@ + settings(props::pairs(controls@))
                + " } }"@
        }),
{
    let mut line = head;
    line.append(" label = ");
    line.append(label);
    if controls.len() == 0 {
        line.append(" }");
    } else {
        line.append(" control = {");
        line.append(write_settings(controls).as_str());
        line.append(" } }");
    }
    line
}

/// Describe a built-in filter.
pub fn builtin_filter(name: &str, label: &str, controls: &Vec<(String, String)>) -> (line: String)
    ensures
        line@ == filter_line(builtin(name@, label@, props::pairs(controls@))),
{
    proof {
        assert(props::pairs(controls@).len() == controls@.len());
    }
    write_filter(text::cat2("          { type = builtin name = ", name), label, controls)
}

/// Describe a filter out of a LADSPA plugin.
pub fn ladspa_filter(
    plugin: &str,
    name: &str,
    label: &str,
    controls: &Vec<(String, String)>,
) -> (line: String)
    ensures
        line@ == filter_line(ladspa(plugin@, name@, label@, props::pairs(controls@))),
{
    proof {
        assert(props::pairs(controls@).len() == controls@.len());
    }
    let mut head = text::cat2("          { type = ladspa name = ", name);
    head.append(" plugin = ");
    head.append(plugin);
    write_filter(head, label, controls)
}

/// Join one port of a filter to one of another.
pub fn wired(from: &str, to: &str) -> (line: String)
    ensures
        line@ == wire(from@, to@),
{
    text::cat5(
        "          { output = ",
        quote(from).as_str(),
        " input = ",
        quote(to).as_str(),
        " }",
    )
}

/// One of the two nodes a chain shows to the outside.
#[derive(Debug, Clone, Copy, PartialEq, Eq, Structural)]
pub struct Side {
    pub channels: usize,
    /// Whether the node only follows what it is joined to. Left unsaid where
    /// there is nothing.
    pub passive: Option<bool>,
}

/// A chain's graph.
#[derive(Debug)]
pub struct Graph {
    pub name: String,
    /// What other programs call it.
    pub description: &'static str,
    /// Whether the description is given as the media name too.
    pub media: bool,
    /// The filters, a line each.
    pub nodes: Vec<String>,
    /// The links between them, a line each. Nothing where the graph has no
    /// such section.
    pub links: Option<Vec<String>>,
    /// The ports that the capture node feeds.
    pub inputs: Vec<String>,
    /// The ports that feed the playback node.
    pub outputs: Vec<String>,
    pub capture: Side,
    pub playback: Side,
}

/// A chain's graph as the contracts see it.
pub struct GraphText {
    pub name: Seq<char>,
    pub description: Seq<char>,
    pub media: bool,
    pub nodes: Seq<Seq<char>>,
    pub links: Option<Seq<Seq<char>>>,
    pub inputs: Seq<Seq<char>>,
    pub outputs: Seq<Seq<char>>,
    pub capture: Side,
    pub playback: Side,
}

impl View for Graph {
    type V = GraphText;

    open spec fn view(&self) -> GraphText {
        GraphText {
            name: self.name@,
            description: self.description@,
            media: self.media,
            nodes: text::texts(self.nodes@),
            links: match self.links {
                Some(list) => Some(text::texts(list@)),
                None => None,
            },
            inputs: text::texts(self.inputs@),
            outputs: text::texts(self.outputs@),
            capture: self.capture,
            playback: self.playback,
        }
    }
}

/// A text in quotes.
pub open spec fn quoted(s: Seq<char>) -> Seq<char> {
    "\""@ + s + "\""@
}

/// The ports of a side, each in quotes, as the file lists them.
pub open spec fn port_list(ports: Seq<Seq<char>>) -> Seq<char> {
    text::strung(ports.map_values(|p: Seq<char>| quoted(p)), " "@)
}

/// What the `i`th channel of a node is called.
pub open spec fn position(i: int) -> Seq<char> {
    if i == 0 {
        "FL"@
    } else if i == 1 {
        "FR"@
    } else {
        "AUX"@ + text::decimal((i - 2) as nat)
    }
}

/// The channels of a node, as the file lists them.
pub open spec fn positions(channels: nat) -> Seq<char> {
    text::strung(Seq::new(channels, |i: int| position(i)), " "@)
}

/// How every file begins.
pub open spec fn heading() -> Seq<Seq<char>> {
    seq![
        "context.properties = { log.level = 0 }"@,
        "context.spa-libs = { audio.convert.* = audioconvert/libspa-audioconvert }"@,
        "context.modules = ["@,
        "  { name = libpipewire-module-rt }"@,
        "  { name = libpipewire-module-protocol-native }"@,
        "  { name = libpipewire-module-client-node }"@,
        "  { name = libpipewire-module-adapter }"@,
        "  { name = libpipewire-module-filter-chain"@,
        "    args = {"@,
    ]
}

/// What the chain is called.
pub open spec fn titles(g: GraphText) -> Seq<Seq<char>> {
    let both = seq![
        "      node.name = "@ + quoted(g.name),
        "      node.description = "@ + quoted(g.description),
    ];
    if g.media {
        both.push("      media.name = "@ + quoted(g.description))
    } else {
        both
    }
}

/// A list of lines under a heading.
pub open spec fn section(head: Seq<char>, lines: Seq<Seq<char>>) -> Seq<Seq<char>> {
    seq![head] + lines + seq!["        ]"@]
}

/// The filters and their links.
pub open spec fn wiring(g: GraphText) -> Seq<Seq<char>> {
    let nodes = section("        nodes = ["@, g.nodes);
    match g.links {
        Some(links) => nodes + section("        links = ["@, links),
        None => nodes,
    }
}

/// The ports that lead outside.
pub open spec fn ports(g: GraphText) -> Seq<Seq<char>> {
    seq![
        "        inputs  = [ "@ + port_list(g.inputs) + " ]"@,
        "        outputs = [ "@ + port_list(g.outputs) + " ]"@,
        "      }"@,
    ]
}

/// One of the two nodes outside.
pub open spec fn side(
    head: Seq<char>,
    end: Seq<char>,
    name: Seq<char>,
    s: Side,
) -> Seq<Seq<char>> {
    let first = seq![
        head,
        "        node.name = "@ + quoted(end + name),
        "        audio.channels = "@ + text::decimal(s.channels as nat),
        "        audio.position = [ "@ + positions(s.channels as nat) + " ]"@,
    ];
    let last = seq!["        node.autoconnect = false"@, "      }"@];
    match s.passive {
        Some(true) => first + seq!["        node.passive = true"@] + last,
        Some(false) => first + seq!["        node.passive = false"@] + last,
        None => first + last,
    }
}

/// How every file ends.
pub open spec fn ending() -> Seq<Seq<char>> {
    seq!["    }"@, "  }"@, "]"@]
}

/// The lines of a chain's file.
pub open spec fn lines(g: GraphText) -> Seq<Seq<char>> {
    heading() + titles(g) + seq!["      filter.graph = {"@] + wiring(g) + ports(g) + side(
        "      capture.props  = {"@,
        "input."@,
        g.name,
        g.capture,
    ) + side("      playback.props = {"@, "output."@, g.name, g.playback) + ending()
}

/// What the node that feeds a chain is called.
pub fn input_name(name: &str) -> (r: String)
    ensures
        r@ == "input."@ + name@,
{
    text::cat2("input.", name)
}

/// What the node that a chain feeds is called.
pub fn output_name(name: &str) -> (r: String)
    ensures
        r@ == "output."@ + name@,
{
    text::cat2("output.", name)
}

/// A chain's file.
pub open spec fn file(g: GraphText) -> Seq<char> {
    text::ended(lines(g))
}

/// A text in quotes.
pub fn quote(s: &str) -> (r: String)
    ensures
        r@ == quoted(s@),
{
    text::cat3("\"", s, "\"")
}

fn write_ports(list: &Vec<String>) -> (r: String)
    ensures
        r@ == port_list(text::texts(list@)),
{
    let mut quoted_ports = text::blank();
    let ghost all = text::texts(list@).map_values(|p: Seq<char>| quoted(p));
    for i in 0..list.len()
        invariant
            all == text::texts(list@).map_values(|p: Seq<char>| quoted(p)),
            text::texts(quoted_ports@) == all.take(i as int),
    {
        text::write(&mut quoted_ports, quote(list[i].as_str()));
        proof {
            assert(all.take(i + 1) =~= all.take(i as int).push(quoted(list@[i as int]@)));
        }
    }
    proof {
        assert(all.take(list@.len() as int) =~= all);
    }
    text::string_together(&quoted_ports, " ")
}

fn write_position(i: usize) -> (r: String)
    ensures
        r@ == position(i as int),
{
    if i == 0 {
        "FL".to_owned()
    } else if i == 1 {
        "FR".to_owned()
    } else {
        text::cat2("AUX", text::number((i - 2) as u64).as_str())
    }
}

fn write_positions(channels: usize) -> (r: String)
    ensures
        r@ == positions(channels as nat),
{
    let mut names = text::blank();
    let ghost all = Seq::new(channels as nat, |i: int| position(i));
    for i in 0..channels
        invariant
            all == Seq::new(channels as nat, |i: int| position(i)),
            text::texts(names@) == all.take(i as int),
    {
        text::write(&mut names, write_position(i));
        proof {
            assert(all.take(i + 1) =~= all.take(i as int).push(position(i as int)));
        }
    }
    proof {
        assert(all.take(channels as int) =~= all);
    }
    text::string_together(&names, " ")
}

fn write_heading() -> (page: Vec<String>)
    ensures
        text::texts(page@) == heading(),
{
    let mut page = text::blank();
    text::write(&mut page, "context.properties = { log.level = 0 }".to_owned());
    text::write(
        &mut page,
        "context.spa-libs = { audio.convert.* = audioconvert/libspa-audioconvert }".to_owned(),
    );
    text::write(&mut page, "context.modules = [".to_owned());
    text::write(&mut page, "  { name = libpipewire-module-rt }".to_owned());
    text::write(&mut page, "  { name = libpipewire-module-protocol-native }".to_owned());
    text::write(&mut page, "  { name = libpipewire-module-client-node }".to_owned());
    text::write(&mut page, "  { name = libpipewire-module-adapter }".to_owned());
    text::write(&mut page, "  { name = libpipewire-module-filter-chain".to_owned());
    text::write(&mut page, "    args = {".to_owned());
    proof {
        assert(text::texts(page@) =~= heading());
    }
    page
}

fn write_section(head: &str, lines: &Vec<String>) -> (page: Vec<String>)
    ensures
        text::texts(page@) == section(head@, text::texts(lines@)),
{
    let mut page = text::blank();
    text::write(&mut page, head.to_owned());
    proof {
        assert(text::texts(page@) =~= seq![head@]);
    }
    text::write_all(&mut page, lines);
    text::write(&mut page, "        ]".to_owned());
    proof {
        assert(text::texts(page@) =~= section(head@, text::texts(lines@)));
    }
    page
}

fn write_side(head: &str, end: &str, name: &str, s: Side) -> (page: Vec<String>)
    ensures
        text::texts(page@) == side(head@, end@, name@, s),
{
    let mut page = text::blank();
    text::write(&mut page, head.to_owned());
    text::write(
        &mut page,
        text::cat2("        node.name = ", quote(text::cat2(end, name).as_str()).as_str()),
    );
    text::write(
        &mut page,
        text::cat2("        audio.channels = ", text::number(s.channels as u64).as_str()),
    );
    text::write(
        &mut page,
        text::cat3("        audio.position = [ ", write_positions(s.channels).as_str(), " ]"),
    );
    match s.passive {
        Some(passive) => {
            if passive {
                text::write(&mut page, "        node.passive = true".to_owned());
            } else {
                text::write(&mut page, "        node.passive = false".to_owned());
            }
        },
        None => {},
    }
    text::write(&mut page, "        node.autoconnect = false".to_owned());
    text::write(&mut page, "      }".to_owned());
    proof {
        assert(text::texts(page@) =~= side(head@, end@, name@, s));
    }
    page
}

impl Graph {
    fn write_titles(&self) -> (page: Vec<String>)
        ensures
            text::texts(page@) == titles(self@),
    {
        let mut page = text::blank();
        text::write(&mut page, text::cat2("      node.name = ", quote(self.name.as_str()).as_str()));
        text::write(
            &mut page,
            text::cat2("      node.description = ", quote(self.description).as_str()),
        );
        if self.media {
            text::write(
                &mut page,
                text::cat2("      media.name = ", quote(self.description).as_str()),
            );
        }
        proof {
            assert(text::texts(page@) =~= titles(self@));
        }
        page
    }

    fn write_wiring(&self) -> (page: Vec<String>)
        ensures
            text::texts(page@) == wiring(self@),
    {
        let mut page = write_section("        nodes = [", &self.nodes);
        match &self.links {
            Some(links) => {
                let more = write_section("        links = [", links);
                text::write_all(&mut page, &more);
            },
            None => {},
        }
        page
    }

    fn write_outside(&self) -> (page: Vec<String>)
        ensures
            text::texts(page@) == ports(self@),
    {
        let mut page = text::blank();
        text::write(
            &mut page,
            text::cat3("        inputs  = [ ", write_ports(&self.inputs).as_str(), " ]"),
        );
        text::write(
            &mut page,
            text::cat3("        outputs = [ ", write_ports(&self.outputs).as_str(), " ]"),
        );
        text::write(&mut page, "      }".to_owned());
        proof {
            assert(text::texts(page@) =~= ports(self@));
        }
        page
    }

    /// The file that a helper runs the chain from.
    pub fn config(&self) -> (r: String)
        ensures
            r@ == file(self@),
    {
        let mut page = write_heading();
        let titles_page = self.write_titles();
        text::write_all(&mut page, &titles_page);
        let ghost so_far = text::texts(page@);
        text::write(&mut page, "      filter.graph = {".to_owned());
        proof {
            assert(text::texts(page@) =~= so_far + seq!["      filter.graph = {"@]);
        }
        let wiring_page = self.write_wiring();
        text::write_all(&mut page, &wiring_page);
        let ports_page = self.write_outside();
        text::write_all(&mut page, &ports_page);
        let capture = write_side(
            "      capture.props  = {",
            "input.",
            self.name.as_str(),
            self.capture,
        );
        text::write_all(&mut page, &capture);
        let playback = write_side(
            "      playback.props = {",
            "output.",
            self.name.as_str(),
            self.playback,
        );
        text::write_all(&mut page, &playback);
        let ghost so_far = text::texts(page@);
        text::write(&mut page, "    }".to_owned());
        text::write(&mut page, "  }".to_owned());
        text::write(&mut page, "]".to_owned());
        proof {
            assert(text::texts(page@) =~= so_far + ending());
        }
        text::end_lines(&page)
    }
}

/// A link names where it comes from and where it goes, each in quotes.
pub proof fn a_wire_names_both_ends(from: Seq<char>, to: Seq<char>)
    ensures
        wire(from, to) == "          { output = \""@ + from + "\" input = \""@ + to + "\" }"@,
{
    reveal_strlit("          { output = ");
    reveal_strlit("\"");
    reveal_strlit(" input = ");
    reveal_strlit(" }");
    reveal_strlit("          { output = \"");
    reveal_strlit("\" input = \"");
    reveal_strlit("\" }");
    assert("          { output = \""@ =~= "          { output = "@ + "\""@);
    assert("\" input = \""@ =~= "\""@ + " input = "@ + "\""@);
    assert("\" }"@ =~= "\""@ + " }"@);
    assert(wire(from, to) =~= "          { output = \""@ + from + "\" input = \""@ + to + "\" }"@);
}

/// Two links that read the same join the same two ends.
pub proof fn wires_tell_their_ends_apart(
    from: Seq<char>,
    to: Seq<char>,
    other_from: Seq<char>,
    other_to: Seq<char>,
)
    requires
        wire(from, to) == wire(other_from, other_to),
        !from.contains('"'),
        !other_from.contains('"'),
    ensures
        from == other_from,
        to == other_to,
{
    let head = "          { output = \""@;
    let middle = "\" input = \""@;
    let tail = "\" }"@;
    reveal_strlit("          { output = \"");
    reveal_strlit("\" input = \"");
    reveal_strlit("\" }");
    a_wire_names_both_ends(from, to);
    a_wire_names_both_ends(other_from, other_to);
    let one = wire(from, to);
    let n = head.len() as int;
    if from.len() < other_from.len() {
        assert(one[n + from.len()] == '"');
        assert(one[n + from.len()] == other_from[from.len() as int]);
        assert(other_from.contains('"'));
    }
    if other_from.len() < from.len() {
        assert(one[n + other_from.len()] == '"');
        assert(one[n + other_from.len()] == from[other_from.len() as int]);
        assert(from.contains('"'));
    }
    assert(from =~= other_from) by {
        assert(from =~= one.subrange(n, n + from.len()));
        assert(other_from =~= one.subrange(n, n + from.len()));
    }
    let m = n + from.len() + middle.len();
    assert(one.len() == n + from.len() + middle.len() + to.len() + tail.len());
    assert(one.len() == n + other_from.len() + middle.len() + other_to.len() + tail.len());
    assert(to =~= one.subrange(m, m + to.len()));
    assert(other_to =~= one.subrange(m, m + to.len()));
}

/// Whether one output, and no other, feeds an input.
pub open spec fn only_feeds(links: Seq<Seq<char>>, from: Seq<char>, to: Seq<char>) -> bool {
    &&& links.contains(wire(from, to))
    &&& forall|other: Seq<char>|
        !other.contains('"') && #[trigger] links.contains(wire(other, to)) ==> other == from
}

/// Whether a list of links says nothing but which output goes into which
/// input, in this order.
pub open spec fn joins_these(
    links: Seq<Seq<char>>,
    ends: Seq<(Seq<char>, Seq<char>)>,
) -> bool {
    &&& links.len() == ends.len()
    &&& forall|k: int|
        0 <= k < ends.len() ==> !(#[trigger] ends[k]).0.contains('"') && links[k] == wire(
            ends[k].0,
            ends[k].1,
        )
}

/// Where no input stands twice among links, each is fed by its one output.
pub proof fn each_input_has_one_feed(
    links: Seq<Seq<char>>,
    ends: Seq<(Seq<char>, Seq<char>)>,
    k: int,
)
    requires
        joins_these(links, ends),
        0 <= k < ends.len(),
        forall|j: int| 0 <= j < ends.len() && j != k ==> (#[trigger] ends[j]).1 != ends[k].1,
    ensures
        only_feeds(links, ends[k].0, ends[k].1),
{
    assert(links[k] == wire(ends[k].0, ends[k].1));
    assert forall|other: Seq<char>|
        !other.contains('"') && #[trigger] links.contains(
            wire(other, ends[k].1),
        ) implies other == ends[k].0 by {
        let j = links.index_of(wire(other, ends[k].1));
        wires_tell_their_ends_apart(ends[j].0, ends[j].1, other, ends[k].1);
    }
}

/// A filter's line says what it is built on, what it is called and what it
/// does, and gives each of its controls a value, in order.
pub proof fn a_filter_line_says_it_all(f: Filter)
    ensures
        f.plugin is None ==> text::begins(
            filter_line(f),
            "          { type = builtin name = "@ + f.name + " label = "@ + f.label,
        ),
        f.plugin matches Some(plugin) ==> text::begins(
            filter_line(f),
            "          { type = ladspa name = "@ + f.name + " plugin = "@ + plugin + " label = "@
                + f.label,
        ),
        f.controls.len() == 0 ==> text::ends(filter_line(f), " label = "@ + f.label + " }"@),
        f.controls.len() > 0 ==> text::ends(
            filter_line(f),
            " label = "@ + f.label + " control = {"@ + settings(f.controls) + " } }"@,
        ),
{
    let head = match f.plugin {
        None => "          { type = builtin name = "@ + f.name,
        Some(plugin) => "          { type = ladspa name = "@ + f.name + " plugin = "@ + plugin,
    };
    let front = head + " label = "@ + f.label;
    let back = if f.controls.len() == 0 {
        " }"@
    } else {
        " control = {"@ + settings(f.controls) + " } }"@
    };
    let line = filter_line(f);
    assert(line =~= front + back);
    assert(line.subrange(0, front.len() as int) =~= front);
    let tail = " label = "@ + f.label + back;
    assert(line =~= head + tail);
    assert(line.subrange(head.len() as int, line.len() as int) =~= tail);
    if f.controls.len() > 0 {
        assert(tail =~= " label = "@ + f.label + " control = {"@ + settings(f.controls) + " } }"@);
    }
}

/// Each control is given its value by name, in quotes, one behind the other.
pub proof fn a_setting_names_its_control(
    controls: Seq<(Seq<char>, Seq<char>)>,
    name: Seq<char>,
    value: Seq<char>,
)
    ensures
        settings(controls.push((name, value))) == settings(controls) + " \""@ + name + "\" = "@
            + value,
        settings(Seq::empty()).len() == 0,
{
    let longer = controls.push((name, value));
    assert(longer.drop_last() =~= controls);
    reveal_strlit(" ");
    reveal_strlit("\"");
    reveal_strlit(" = ");
    reveal_strlit(" \"");
    reveal_strlit("\" = ");
    assert(" \""@ =~= " "@ + "\""@);
    assert("\" = "@ =~= "\""@ + " = "@);
    assert(settings(longer) =~= settings(controls) + " \""@ + name + "\" = "@ + value);
}

/// A side of a chain goes by the chain's name behind its own word, has the
/// channels it was given, and is joined to nothing by itself.
pub proof fn a_side_says_what_it_is(head: Seq<char>, end: Seq<char>, name: Seq<char>, s: Side)
    ensures
        ({
            let list = side(head, end, name, s);
            &&& list[0] == head
            &&& list[1] == "        node.name = \""@ + end + name + "\""@
            &&& list[2] == "        audio.channels = "@ + text::decimal(s.channels as nat)
            &&& list[3] == "        audio.position = [ "@ + positions(s.channels as nat) + " ]"@
            &&& list.contains("        node.autoconnect = false"@)
            &&& list.last() == "      }"@
            &&& s.passive == Some(true) ==> list.len() == 7 && list[4]
                == "        node.passive = true"@
            &&& s.passive == Some(false) ==> list.len() == 7 && list[4]
                == "        node.passive = false"@
            &&& s.passive is None ==> list.len() == 6
        }),
{
    let list = side(head, end, name, s);
    reveal_strlit("        node.name = ");
    reveal_strlit("        node.name = \"");
    reveal_strlit("\"");
    assert("        node.name = \""@ =~= "        node.name = "@ + "\""@);
    assert(list[1] =~= "        node.name = \""@ + end + name + "\""@);
    assert(list[list.len() - 2] == "        node.autoconnect = false"@);
}

/// The first two places are left and right, and every one behind them is
/// numbered from nothing.
pub proof fn places_are_left_right_and_numbered(channels: nat)
    ensures
        position(0) == "FL"@,
        position(1) == "FR"@,
        forall|n: nat| #[trigger] position((n + 2) as int) == "AUX"@ + text::decimal(n),
        positions(channels + 1) == (if channels == 0 {
            "FL"@
        } else {
            positions(channels) + " "@ + position(channels as int)
        }),
{
    let longer = Seq::new(channels + 1, |i: int| position(i));
    assert(longer.drop_last() =~= Seq::new(channels, |i: int| position(i)));
}

/// A chain's file holds its filters under one heading and its links under
/// another, in their order, then the ports at its two ends, then what feeds
/// it and what it feeds.
pub proof fn a_file_is_made_of_these(g: GraphText)
    ensures
        ({
            let all = lines(g);
            let top = (9 + titles(g).len()) as int;
            let n = g.nodes.len() as int;
            let m = match g.links {
                Some(links) => links.len() + 2,
                None => 0,
            };
            let out = top + 3 + n + m;
            &&& all[9] == "      node.name = \""@ + g.name + "\""@
            &&& all[10] == "      node.description = \""@ + g.description + "\""@
            &&& titles(g).len() == 2 + (if g.media {
                1int
            } else {
                0
            })
            &&& g.media ==> all[11] == "      media.name = \""@ + g.description + "\""@
            &&& all[top] == "      filter.graph = {"@
            &&& all[top + 1] == "        nodes = ["@
            &&& forall|k: int| 0 <= k < n ==> #[trigger] all[top + 2 + k] == g.nodes[k]
            &&& all[top + 2 + n] == "        ]"@
            &&& g.links matches Some(links) ==> {
                &&& all[top + 3 + n] == "        links = ["@
                &&& forall|k: int|
                    0 <= k < links.len() ==> #[trigger] all[top + 4 + n + k] == links[k]
                &&& all[top + 4 + n + links.len()] == "        ]"@
            }
            &&& all[out] == "        inputs  = [ "@ + port_list(g.inputs) + " ]"@
            &&& all[out + 1] == "        outputs = [ "@ + port_list(g.outputs) + " ]"@
            &&& all[out + 2] == "      }"@
            &&& all.skip(out + 3) == side("      capture.props  = {"@, "input."@, g.name, g.capture)
                + side("      playback.props = {"@, "output."@, g.name, g.playback) + ending()
        }),
{
    let top = titles(g);
    reveal_strlit("\"");
    reveal_strlit("      node.name = ");
    reveal_strlit("      node.name = \"");
    reveal_strlit("      node.description = ");
    reveal_strlit("      node.description = \"");
    reveal_strlit("      media.name = ");
    reveal_strlit("      media.name = \"");
    assert("      node.name = \""@ =~= "      node.name = "@ + "\""@);
    assert("      node.description = \""@ =~= "      node.description = "@ + "\""@);
    assert("      media.name = \""@ =~= "      media.name = "@ + "\""@);
    assert(top[0] =~= "      node.name = \""@ + g.name + "\""@);
    assert(top[1] =~= "      node.description = \""@ + g.description + "\""@);
    if g.media {
        assert(top[2] =~= "      media.name = \""@ + g.description + "\""@);
    }
    let capture = side("      capture.props  = {"@, "input."@, g.name, g.capture);
    let playback = side("      playback.props = {"@, "output."@, g.name, g.playback);
    parts_of_a_page(heading(), top, wiring(g), ports(g), capture, playback, ending());
    let all = lines(g);
    let n = g.nodes.len() as int;
    let at = (9 + titles(g).len()) as int;
    assert(wiring(g)[0] == "        nodes = ["@);
    assert(wiring(g)[1 + n] == "        ]"@);
    assert forall|k: int| 0 <= k < n implies #[trigger] all[at + 2 + k] == g.nodes[k] by {
        assert(wiring(g)[1 + k] == g.nodes[k]);
    }
    if g.links is Some {
        let links = g.links->Some_0;
        assert(wiring(g)[2 + n] == "        links = ["@);
        assert(wiring(g)[3 + n + links.len()] == "        ]"@);
        assert forall|k: int| 0 <= k < links.len() implies #[trigger] all[at + 4 + n + k]
            == links[k] by {
            assert(wiring(g)[3 + n + k] == links[k]);
        }
    }
}

/// Where the parts of a page stand on it.
proof fn parts_of_a_page(
    heading: Seq<Seq<char>>,
    titles: Seq<Seq<char>>,
    middle: Seq<Seq<char>>,
    ports: Seq<Seq<char>>,
    capture: Seq<Seq<char>>,
    playback: Seq<Seq<char>>,
    ending: Seq<Seq<char>>,
)
    requires
        ports.len() == 3,
    ensures
        ({
            let graph = "      filter.graph = {"@;
            let all = heading + titles + seq![graph] + middle + ports + capture + playback
                + ending;
            let top = (heading.len() + titles.len()) as int;
            let out = top + 1 + middle.len();
            &&& forall|k: int|
                0 <= k < titles.len() ==> all[heading.len() + k] == #[trigger] titles[k]
            &&& all[top] == graph
            &&& forall|k: int| 0 <= k < middle.len() ==> all[top + 1 + k] == #[trigger] middle[k]
            &&& all[out] == ports[0]
            &&& all[out + 1] == ports[1]
            &&& all[out + 2] == ports[2]
            &&& all.skip(out + 3) == capture + playback + ending
        }),
{
    let graph = "      filter.graph = {"@;
    let all = heading + titles + seq![graph] + middle + ports + capture + playback + ending;
    let out = (heading.len() + titles.len()) as int + 1 + middle.len();
    assert(all.skip(out + 3) =~= capture + playback + ending);
}

/// Ports are listed in quotes with a blank between them.
pub proof fn ports_are_listed_in_quotes(list: Seq<Seq<char>>, port: Seq<char>)
    ensures
        port_list(Seq::empty()).len() == 0,
        port_list(seq![port]) == "\""@ + port + "\""@,
        list.len() > 0 ==> port_list(list.push(port)) == port_list(list) + " \""@ + port + "\""@,
{
    let shown = |p: Seq<char>| quoted(p);
    assert(seq![port].map_values(shown) =~= seq![quoted(port)]);
    let longer = list.push(port).map_values(shown);
    assert(longer.drop_last() =~= list.map_values(shown));
    reveal_strlit(" ");
    reveal_strlit("\"");
    reveal_strlit(" \"");
    assert(" \""@ =~= " "@ + "\""@);
    if list.len() > 0 {
        assert(port_list(list.push(port)) =~= port_list(list) + " \""@ + port + "\""@);
    }
}

} // verus!
