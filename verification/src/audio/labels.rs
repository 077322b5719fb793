//! Which filters a chain's file names.
//!
//! A control is addressed by the filter it belongs to, and a knob naming a
//! filter that the file does not have would turn and do nothing. Whether it
//! has one is a question about the file's text: whether the filter's name
//! and its label stand in it side by side. What makes the question
//! answerable is that only a filter's label is called one: no other line has
//! a `b` behind an `a`.

use vstd::prelude::*;

use crate::text;

use super::chain::{self, Filter, GraphText};

verus! {

/// How a file names a filter of a kind.
pub open spec fn mention(name: Seq<char>, label: Seq<char>) -> Seq<char> {
    "name = "@ + name + " label = "@ + label
}

/// Whether a file has a filter of that name and kind.
pub open spec fn has_filter(file: Seq<char>, name: Seq<char>, label: Seq<char>) -> bool {
    text::occurs(file, mention(name, label))
}

/// Whether there is a `b` at a place with an `a` before it, or with nothing.
pub open spec fn tucked(s: Seq<char>, i: int) -> bool {
    s[i] == 'b' && (i == 0 || s[i - 1] == 'a')
}

/// Whether a text can stand anywhere without a `b` behind an `a`.
pub open spec fn plain(s: Seq<char>) -> bool {
    forall|i: int| 0 <= i < s.len() ==> !#[trigger] tucked(s, i)
}

/// Whether every one of some lines is plain.
pub open spec fn all_plain(list: Seq<Seq<char>>) -> bool {
    forall|k: int| 0 <= k < list.len() ==> plain(#[trigger] list[k])
}

/// Whether a text has no space in it.
pub open spec fn unspaced(s: Seq<char>) -> bool {
    forall|i: int| 0 <= i < s.len() ==> #[trigger] s[i] != ' '
}

/// Plain texts one after the other are plain.
pub proof fn plain_together(a: Seq<char>, b: Seq<char>)
    requires
        plain(a),
        plain(b),
    ensures
        plain(a + b),
{
    assert forall|i: int| 0 <= i < (a + b).len() implies !#[trigger] tucked(a + b, i) by {
        if i < a.len() {
            assert(!tucked(a, i));
        } else {
            assert(!tucked(b, i - a.len()));
        }
    }
}

/// Plain lines one after the other are plain.
pub proof fn all_plain_together(a: Seq<Seq<char>>, b: Seq<Seq<char>>)
    requires
        all_plain(a),
        all_plain(b),
    ensures
        all_plain(a + b),
{
}

/// A number is plain.
pub proof fn numbers_are_plain(n: nat)
    ensures
        plain(text::decimal(n)),
        unspaced(text::decimal(n)),
{
    text::decimal_reads_back(n);
    let s = text::decimal(n);
    assert forall|i: int| 0 <= i < s.len() implies !#[trigger] tucked(s, i) by {
        assert(text::is_digit(s[i]));
    }
    assert forall|i: int| 0 <= i < s.len() implies #[trigger] s[i] != ' ' by {
        assert(text::is_digit(s[i]));
    }
}

/// A text in quotes is plain where the text is.
pub proof fn quotes_are_plain(s: Seq<char>)
    requires
        plain(s),
    ensures
        plain(chain::quoted(s)),
{
    reveal_strlit("\"");
    assert(plain("\""@));
    plain_together("\""@, s);
    plain_together("\""@ + s, "\""@);
}

/// Plain texts strung together are plain.
pub proof fn strung_is_plain(list: Seq<Seq<char>>)
    requires
        all_plain(list),
    ensures
        plain(text::strung(list, " "@)),
    decreases list.len(),
{
    if list.len() > 1 {
        reveal_strlit(" ");
        assert(plain(" "@));
        strung_is_plain(list.drop_last());
        plain_together(text::strung(list.drop_last(), " "@), " "@);
        plain_together(text::strung(list.drop_last(), " "@) + " "@, list.last());
    }
}

/// A file does not name a filter anywhere in a plain line.
pub proof fn a_plain_line_mentions_nothing(line: Seq<char>, name: Seq<char>, label: Seq<char>)
    requires
        plain(line),
    ensures
        !text::occurs(line, mention(name, label)),
{
    reveal_strlit("name = ");
    reveal_strlit(" label = ");
    let piece = mention(name, label);
    let q = name.len() as int + 10;
    assert(piece[q] == 'b' && piece[q - 1] == 'a');
    if text::occurs(line, piece) {
        let i = choose|i: int| text::occurs_at(line, piece, i);
        assert(line.subrange(i, i + piece.len())[q] == line[i + q]);
        assert(line.subrange(i, i + piece.len())[q - 1] == line[i + q - 1]);
        assert(tucked(line, i + q));
    }
}

/// Where a line with one label names a filter, the name and the label stand
/// on either side of it.
pub proof fn a_mention_stands_at_the_label(
    front: Seq<char>,
    back: Seq<char>,
    name: Seq<char>,
    label: Seq<char>,
)
    requires
        plain(front),
        plain(back),
        text::occurs(front + " label = "@ + back, mention(name, label)),
    ensures
        text::ends(front, "name = "@ + name),
        text::begins(back, label),
{
    reveal_strlit("name = ");
    reveal_strlit(" label = ");
    let line = front + " label = "@ + back;
    let piece = mention(name, label);
    let n = front.len() as int;
    let q = name.len() as int + 10;
    assert(piece[q] == 'b' && piece[q - 1] == 'a');
    let i = choose|i: int| text::occurs_at(line, piece, i);
    let found = line.subrange(i, i + piece.len());
    assert(found[q] == line[i + q] && found[q - 1] == line[i + q - 1]);
    assert(i + q == n + 3) by {
        let at = i + q;
        if at < n {
            assert(!tucked(front, at));
        } else if at >= n + 9 {
            assert(!tucked(back, at - n - 9));
        } else {
            assert(line[at] == " label = "@[at - n]);
        }
    }
    let want = "name = "@ + name;
    assert(front.subrange(n - want.len(), n) =~= want) by {
        assert forall|j: int| 0 <= j < want.len() implies front[n - want.len() + j]
            == #[trigger] want[j] by {
            assert(found[j] == line[i + j]);
            assert(piece[j] == want[j]);
        }
    }
    assert(back.subrange(0, label.len() as int) =~= label) by {
        assert forall|j: int| 0 <= j < label.len() implies back[j] == #[trigger] label[j] by {
            let at: int = want.len() + 9 + j;
            assert(found[at] == line[i + at]);
            assert(piece[at] == label[j]);
        }
    }
}

/// Whether a filter's line has no label but its own.
pub open spec fn tidy(f: Filter) -> bool {
    &&& plain(f.name)
    &&& unspaced(f.name)
    &&& plain(f.label)
    &&& f.label.len() > 0
    &&& plain(chain::settings(f.controls))
    &&& f.plugin matches Some(plugin) ==> plain(plugin) && unspaced(plugin)
}

/// A name at the end of a text, behind an equals sign, is the name that the
/// text ends with.
proof fn a_name_ends_there(front: Seq<char>, own: Seq<char>, name: Seq<char>)
    requires
        front.len() >= 7,
        front.last() == ' ',
        unspaced(own),
        unspaced(name),
        text::ends(front + own, "name = "@ + name),
    ensures
        own == name,
        text::ends(front, "name = "@),
{
    reveal_strlit("name = ");
    let whole = front + own;
    let want = "name = "@ + name;
    let start = whole.len() - want.len();
    let found = whole.subrange(start, whole.len() as int);
    assert(found == want);
    if own.len() < name.len() {
        let j = want.len() - own.len() - 1;
        assert(found[j] == whole[start + j]);
        assert(whole[start + j] == front.last());
        assert(want[j] == name[j - 7]);
    }
    if name.len() < own.len() {
        assert(found[6] == whole[start + 6]);
        assert(want[6] == ' ');
        assert(whole[start + 6] == own[start + 6 - front.len()]);
    }
    assert(own =~= name) by {
        assert forall|j: int| 0 <= j < name.len() implies own[j] == #[trigger] name[j] by {
            assert(found[7 + j] == whole[start + 7 + j]);
            assert(want[7 + j] == name[j]);
        }
    }
    assert(front.subrange(front.len() - 7, front.len() as int) =~= "name = "@) by {
        assert forall|j: int| 0 <= j < 7 implies front[front.len() - 7 + j] == #[trigger] "name = "@[
            j
        ] by {
            assert(found[j] == whole[start + j]);
            assert(want[j] == "name = "@[j]);
        }
    }
}

/// A filter's line names that filter and no other.
pub proof fn a_filter_is_named_once(f: Filter, name: Seq<char>, label: Seq<char>)
    requires
        tidy(f),
        unspaced(name),
        label.len() > 0,
        text::occurs(chain::filter_line(f), mention(name, label)),
    ensures
        f.plugin is None,
        f.name == name,
        f.label[0] == label[0],
{
    let built = "          { type = builtin name = "@;
    let loaded = "          { type = ladspa name = "@;
    reveal_strlit("          { type = builtin name = ");
    reveal_strlit("          { type = ladspa name = ");
    reveal_strlit(" plugin = ");
    reveal_strlit(" }");
    reveal_strlit(" control = {");
    reveal_strlit(" } }");
    assert(plain(built));
    assert(plain(loaded));
    assert(plain(" plugin = "@));
    assert(plain(" }"@));
    assert(plain(" control = {"@));
    assert(plain(" } }"@));
    let back = if f.controls.len() == 0 {
        f.label + " }"@
    } else {
        f.label + " control = {"@ + chain::settings(f.controls) + " } }"@
    };
    plain_together(f.label, " }"@);
    plain_together(f.label, " control = {"@);
    plain_together(f.label + " control = {"@, chain::settings(f.controls));
    plain_together(f.label + " control = {"@ + chain::settings(f.controls), " } }"@);
    match f.plugin {
        None => {
            let front = built + f.name;
            plain_together(built, f.name);
            assert(chain::filter_line(f) =~= front + " label = "@ + back);
            a_mention_stands_at_the_label(front, back, name, label);
            a_name_ends_there(built, f.name, name);
            assert(back.subrange(0, label.len() as int)[0] == back[0]);
        },
        Some(plugin) => {
            let head = loaded + f.name + " plugin = "@;
            let front = head + plugin;
            plain_together(loaded, f.name);
            plain_together(loaded + f.name, " plugin = "@);
            plain_together(head, plugin);
            assert(chain::filter_line(f) =~= front + " label = "@ + back);
            a_mention_stands_at_the_label(front, back, name, label);
            a_name_ends_there(head, plugin, name);
            reveal_strlit("name = ");
            let n = head.len() as int;
            assert(head.subrange(n - 7, n)[0] == head[n - 7]);
            assert(head[n - 7] == " plugin = "@[3]);
        },
    }
}

/// A built-in filter's line names it.
pub proof fn a_filter_names_itself(f: Filter)
    requires
        f.plugin is None,
    ensures
        text::occurs(chain::filter_line(f), mention(f.name, f.label)),
{
    reveal_strlit("          { type = builtin name = ");
    reveal_strlit("name = ");
    let line = chain::filter_line(f);
    let piece = mention(f.name, f.label);
    let built = "          { type = builtin name = "@;
    let n = built.len() - 7;
    assert(built.subrange(n, n + 7) =~= "name = "@);
    assert(line.subrange(n, n + piece.len()) =~= piece) by {
        let front = built + f.name + " label = "@ + f.label;
        assert(line.take(front.len() as int) =~= front);
        assert(front.skip(n) =~= piece);
    }
    assert(text::occurs_at(line, piece, n));
}

/// A link's line is plain where the ports are.
pub proof fn wires_are_plain(from: Seq<char>, to: Seq<char>)
    requires
        plain(from),
        plain(to),
    ensures
        plain(chain::wire(from, to)),
{
    reveal_strlit("          { output = ");
    assert(plain("          { output = "@));
    reveal_strlit(" input = ");
    assert(plain(" input = "@));
    reveal_strlit(" }");
    assert(plain(" }"@));
    let (a, b) = (chain::quoted(from), chain::quoted(to));
    quotes_are_plain(from);
    quotes_are_plain(to);
    plain_together("          { output = "@, a);
    plain_together("          { output = "@ + a, " input = "@);
    plain_together("          { output = "@ + a + " input = "@, b);
    plain_together("          { output = "@ + a + " input = "@ + b, " }"@);
}

/// The settings of controls are plain where the controls, in quotes, and
/// their values are.
pub proof fn settings_are_plain(controls: Seq<(Seq<char>, Seq<char>)>)
    requires
        forall|k: int|
            0 <= k < controls.len() ==> plain(chain::quoted((#[trigger] controls[k]).0)) && plain(
                controls[k].1,
            ),
    ensures
        plain(chain::settings(controls)),
    decreases controls.len(),
{
    if controls.len() > 0 {
        reveal_strlit(" ");
        reveal_strlit(" = ");
        assert(plain(" "@));
        assert(plain(" = "@));
        let shorter = controls.drop_last();
        let (name, value) = controls.last();
        assert forall|k: int| 0 <= k < shorter.len() implies plain(
            chain::quoted((#[trigger] shorter[k]).0),
        ) && plain(shorter[k].1) by {
            assert(shorter[k] == controls[k]);
        }
        assert(controls[controls.len() - 1] == controls.last());
        settings_are_plain(shorter);
        let before = chain::settings(shorter);
        plain_together(before, " "@);
        plain_together(before + " "@, chain::quoted(name));
        plain_together(before + " "@ + chain::quoted(name), " = "@);
        plain_together(before + " "@ + chain::quoted(name) + " = "@, value);
    }
}

proof fn heading_is_plain()
    ensures
        all_plain(chain::heading()),
{
    reveal_strlit("context.properties = { log.level = 0 }");
    assert(plain("context.properties = { log.level = 0 }"@));
    reveal_strlit("context.spa-libs = { audio.convert.* = audioconvert/libspa-audioconvert }");
    assert(plain("context.spa-libs = { audio.convert.* = audioconvert/libspa-audioconvert }"@));
    reveal_strlit("context.modules = [");
    assert(plain("context.modules = ["@));
    reveal_strlit("  { name = libpipewire-module-rt }");
    assert(plain("  { name = libpipewire-module-rt }"@));
    reveal_strlit("  { name = libpipewire-module-protocol-native }");
    assert(plain("  { name = libpipewire-module-protocol-native }"@));
    reveal_strlit("  { name = libpipewire-module-client-node }");
    assert(plain("  { name = libpipewire-module-client-node }"@));
    reveal_strlit("  { name = libpipewire-module-adapter }");
    assert(plain("  { name = libpipewire-module-adapter }"@));
    reveal_strlit("  { name = libpipewire-module-filter-chain");
    assert(plain("  { name = libpipewire-module-filter-chain"@));
    reveal_strlit("    args = {");
    assert(plain("    args = {"@));
}

proof fn titles_are_plain(g: GraphText)
    requires
        plain(g.name),
        plain(g.description),
    ensures
        all_plain(chain::titles(g)),
{
    reveal_strlit("      node.name = ");
    assert(plain("      node.name = "@));
    reveal_strlit("      node.description = ");
    assert(plain("      node.description = "@));
    reveal_strlit("      media.name = ");
    assert(plain("      media.name = "@));
    quotes_are_plain(g.name);
    quotes_are_plain(g.description);
    plain_together("      node.name = "@, chain::quoted(g.name));
    plain_together("      node.description = "@, chain::quoted(g.description));
    plain_together("      media.name = "@, chain::quoted(g.description));
}

proof fn positions_are_plain(channels: nat)
    ensures
        plain(chain::positions(channels)),
{
    reveal_strlit("FL");
    assert(plain("FL"@));
    reveal_strlit("FR");
    assert(plain("FR"@));
    reveal_strlit("AUX");
    assert(plain("AUX"@));
    let list = Seq::new(channels, |i: int| chain::position(i));
    assert forall|k: int| 0 <= k < list.len() implies plain(#[trigger] list[k]) by {
        if k >= 2 {
            numbers_are_plain((k - 2) as nat);
            plain_together("AUX"@, text::decimal((k - 2) as nat));
        }
    }
    strung_is_plain(list);
}

proof fn ports_are_plain(g: GraphText)
    requires
        all_plain(g.inputs),
        all_plain(g.outputs),
    ensures
        all_plain(chain::ports(g)),
{
    reveal_strlit("        inputs  = [ ");
    assert(plain("        inputs  = [ "@));
    reveal_strlit("        outputs = [ ");
    assert(plain("        outputs = [ "@));
    reveal_strlit(" ]");
    assert(plain(" ]"@));
    reveal_strlit("      }");
    assert(plain("      }"@));
    port_list_is_plain(g.inputs);
    port_list_is_plain(g.outputs);
    plain_together("        inputs  = [ "@, chain::port_list(g.inputs));
    plain_together("        inputs  = [ "@ + chain::port_list(g.inputs), " ]"@);
    plain_together("        outputs = [ "@, chain::port_list(g.outputs));
    plain_together("        outputs = [ "@ + chain::port_list(g.outputs), " ]"@);
}

proof fn port_list_is_plain(list: Seq<Seq<char>>)
    requires
        all_plain(list),
    ensures
        plain(chain::port_list(list)),
{
    let quoted = list.map_values(|p: Seq<char>| chain::quoted(p));
    assert forall|k: int| 0 <= k < quoted.len() implies plain(#[trigger] quoted[k]) by {
        quotes_are_plain(list[k]);
    }
    strung_is_plain(quoted);
}

proof fn side_is_plain(head: Seq<char>, end: Seq<char>, name: Seq<char>, s: chain::Side)
    requires
        plain(head),
        plain(end),
        plain(name),
    ensures
        all_plain(chain::side(head, end, name, s)),
{
    reveal_strlit("        node.name = ");
    assert(plain("        node.name = "@));
    reveal_strlit("        audio.channels = ");
    assert(plain("        audio.channels = "@));
    reveal_strlit("        audio.position = [ ");
    assert(plain("        audio.position = [ "@));
    reveal_strlit(" ]");
    assert(plain(" ]"@));
    reveal_strlit("        node.autoconnect = false");
    assert(plain("        node.autoconnect = false"@));
    reveal_strlit("        node.passive = true");
    assert(plain("        node.passive = true"@));
    reveal_strlit("        node.passive = false");
    assert(plain("        node.passive = false"@));
    reveal_strlit("      }");
    assert(plain("      }"@));
    let channels = s.channels as nat;
    plain_together(end, name);
    quotes_are_plain(end + name);
    plain_together("        node.name = "@, chain::quoted(end + name));
    numbers_are_plain(channels);
    plain_together("        audio.channels = "@, text::decimal(channels));
    positions_are_plain(channels);
    plain_together("        audio.position = [ "@, chain::positions(channels));
    plain_together("        audio.position = [ "@ + chain::positions(channels), " ]"@);
}

/// The lines of a file before its filters.
pub open spec fn before_filters(g: GraphText) -> Seq<Seq<char>> {
    chain::heading() + chain::titles(g) + seq!["      filter.graph = {"@] + seq![
        "        nodes = ["@,
    ]
}

/// The lines of a file behind its filters.
pub open spec fn behind_filters(g: GraphText) -> Seq<Seq<char>> {
    seq!["        ]"@] + links_section(g) + chain::ports(g) + chain::side(
        "      capture.props  = {"@,
        "input."@,
        g.name,
        g.capture,
    ) + chain::side("      playback.props = {"@, "output."@, g.name, g.playback)
        + chain::ending()
}

/// The links of a file, where it has such a section.
pub open spec fn links_section(g: GraphText) -> Seq<Seq<char>> {
    match g.links {
        Some(links) => chain::section("        links = ["@, links),
        None => seq![],
    }
}

/// Whether nothing but a graph's filters has a label.
pub open spec fn plain_but_for_filters(g: GraphText) -> bool {
    &&& plain(g.name)
    &&& plain(g.description)
    &&& g.links matches Some(links) ==> all_plain(links)
    &&& all_plain(g.inputs)
    &&& all_plain(g.outputs)
}

proof fn before_filters_is_plain(g: GraphText)
    requires
        plain_but_for_filters(g),
    ensures
        all_plain(before_filters(g)),
{
    reveal_strlit("      filter.graph = {");
    assert(plain("      filter.graph = {"@));
    reveal_strlit("        nodes = [");
    assert(plain("        nodes = ["@));
    heading_is_plain();
    titles_are_plain(g);
}

proof fn links_section_is_plain(g: GraphText)
    requires
        plain_but_for_filters(g),
    ensures
        all_plain(links_section(g)),
{
    reveal_strlit("        links = [");
    assert(plain("        links = ["@));
    reveal_strlit("        ]");
    assert(plain("        ]"@));
}

proof fn ending_is_plain()
    ensures
        all_plain(chain::ending()),
{
    reveal_strlit("    }");
    assert(plain("    }"@));
    reveal_strlit("  }");
    assert(plain("  }"@));
    reveal_strlit("]");
    assert(plain("]"@));
}

proof fn behind_filters_is_plain(g: GraphText)
    requires
        plain_but_for_filters(g),
    ensures
        all_plain(behind_filters(g)),
{
    reveal_strlit("        ]");
    assert(plain("        ]"@));
    reveal_strlit("      capture.props  = {");
    assert(plain("      capture.props  = {"@));
    reveal_strlit("      playback.props = {");
    assert(plain("      playback.props = {"@));
    reveal_strlit("input.");
    assert(plain("input."@));
    reveal_strlit("output.");
    assert(plain("output."@));
    links_section_is_plain(g);
    ports_are_plain(g);
    side_is_plain("      capture.props  = {"@, "input."@, g.name, g.capture);
    side_is_plain("      playback.props = {"@, "output."@, g.name, g.playback);
    ending_is_plain();
}

proof fn a_mention_is_on_one_line(name: Seq<char>, label: Seq<char>)
    requires
        !name.contains('\n'),
        !label.contains('\n'),
    ensures
        !mention(name, label).contains('\n'),
        mention(name, label).len() > 0,
{
    reveal_strlit("name = ");
    reveal_strlit(" label = ");
    let piece = mention(name, label);
    if piece.contains('\n') {
        let i = choose|i: int| 0 <= i < piece.len() && piece[i] == '\n';
        if 7 <= i < 7 + name.len() {
            assert(name[i - 7] == '\n');
        } else if i >= 16 + name.len() {
            assert(label[i - 16 - name.len()] == '\n');
        } else if i < 7 {
            assert(piece[i] == "name = "@[i]);
        } else {
            assert(piece[i] == " label = "@[i - 7 - name.len()]);
        }
    }
}

/// Pages one after the other, grouped round one of them.
proof fn regrouped(
    front: Seq<Seq<char>>,
    head: Seq<Seq<char>>,
    nodes: Seq<Seq<char>>,
    tail: Seq<Seq<char>>,
    links: Seq<Seq<char>>,
    ports: Seq<Seq<char>>,
    capture: Seq<Seq<char>>,
    playback: Seq<Seq<char>>,
    ending: Seq<Seq<char>>,
)
    ensures
        front + ((head + nodes + tail) + links) + ports + capture + playback + ending == (front
            + head) + nodes + (tail + links + ports + capture + playback + ending),
{
    assert(front + ((head + nodes + tail) + links) + ports + capture + playback + ending =~= (front
        + head) + nodes + (tail + links + ports + capture + playback + ending));
}

/// A file's lines are its filters and what stands before and behind them.
proof fn a_file_is_wrapped_round_its_filters(g: GraphText)
    ensures
        chain::lines(g) == before_filters(g) + g.nodes + behind_filters(g),
{
    let nodes = chain::section("        nodes = ["@, g.nodes);
    assert(chain::wiring(g) == nodes + links_section(g)) by {
        assert(nodes + Seq::<Seq<char>>::empty() =~= nodes);
    }
    regrouped(
        chain::heading() + chain::titles(g) + seq!["      filter.graph = {"@],
        seq!["        nodes = ["@],
        g.nodes,
        seq!["        ]"@],
        links_section(g),
        chain::ports(g),
        chain::side("      capture.props  = {"@, "input."@, g.name, g.capture),
        chain::side("      playback.props = {"@, "output."@, g.name, g.playback),
        chain::ending(),
    );
}

/// A chain's file has a filter of a name and a kind where one of the graph's
/// filters is described with them.
pub proof fn a_file_names_its_filters(g: GraphText, name: Seq<char>, label: Seq<char>)
    requires
        plain_but_for_filters(g),
        !name.contains('\n'),
        !label.contains('\n'),
    ensures
        has_filter(chain::file(g), name, label) == (exists|k: int|
            0 <= k < g.nodes.len() && #[trigger] text::occurs(g.nodes[k], mention(name, label))),
{
    let piece = mention(name, label);
    let (before, after) = (before_filters(g), behind_filters(g));
    let lines = chain::lines(g);
    let n = before.len() as int;
    before_filters_is_plain(g);
    behind_filters_is_plain(g);
    a_file_is_wrapped_round_its_filters(g);
    a_mention_is_on_one_line(name, label);
    text::a_piece_stands_in_one_line(lines, piece);
    if has_filter(chain::file(g), name, label) {
        let k = choose|k: int| 0 <= k < lines.len() && #[trigger] text::occurs(lines[k], piece);
        if k < n {
            assert(lines[k] == before[k]);
            a_plain_line_mentions_nothing(before[k], name, label);
        } else if k >= n + g.nodes.len() {
            assert(lines[k] == after[k - n - g.nodes.len()]);
            a_plain_line_mentions_nothing(after[k - n - g.nodes.len()], name, label);
        } else {
            assert(text::occurs(g.nodes[k - n], piece));
        }
    }
    if exists|k: int| 0 <= k < g.nodes.len() && #[trigger] text::occurs(g.nodes[k], piece) {
        let k = choose|k: int|
            0 <= k < g.nodes.len() && #[trigger] text::occurs(g.nodes[k], piece);
        assert(lines[n + k] == g.nodes[k]);
        assert(text::occurs(lines[n + k], piece));
    }
}

} // verus!
