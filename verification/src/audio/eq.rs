//! The per-strip processing chains.
//!
//! The processing is `PipeWire`'s own `filter-chain` module (three builtin
//! biquads in series) rather than DSP of our own: `PipeWire`'s biquads are
//! already correct, already realtime-safe, and already what every other
//! filter-chain user on the machine is running. A hand-rolled equaliser
//! would be more code in the realtime path for a worse result.
//!
//! Each chain runs in its own `pipewire -c` helper process. That is how a
//! filter-chain is normally instantiated, and it keeps the DSP out of our
//! address space: if a chain dies it takes its own process with it and the
//! mixer keeps running.
//!
//! The chain appears as two nodes, `input.<name>` and `output.<name>`. Audio
//! goes from the strip's sink into the chain's input, and the chain's output
//! is what the routing matrix treats as the strip's source.
//!
//! Two graphs, matching what Voicemeeter puts on each half of the mixer:
//! virtual strips get the three-band equaliser, hardware strips get the noise
//! gate and compressor behind their AUDIBILITY knobs.
//!
//! One thing to know before changing any of this: a chain only applies a
//! control change while it is **running**. Set a band on an idle chain and
//! the value is quietly ignored, which looks exactly like a wrong control
//! name.
//!
//! Both ends are pinned to stereo and told not to autoconnect. Left to
//! itself the session manager joins a fresh stream to whatever the default
//! device is, which put three EQs across the headset rather than in the
//! strips they belong to; and a mono chain shares no channel with an FL/FR
//! sink, so nothing would have linked to it anyway. The single-channel graph
//! is duplicated per channel by filter-chain itself.

use vstd::prelude::*;
use vstd::slice::slice_subrange;

use crate::props;
use crate::text;

use super::chain::{self, Filter, Graph, GraphText, Side};
use super::dynamics::{DENOISER_LABEL, DENOISER_PLUGIN, LIMIT_NODE};

verus! {

/// Band centre frequencies, low to high. Chosen to match what the three
/// knobs are captioned: Bass, then an unlabelled middle, then Treble.
pub const FREQUENCIES: [u32; 3] = [100, 1_000, 8_000];

/// Names of the three filters inside the graph, in the same order. They are
/// also how a band is addressed when setting its gain, as `<name>:Gain`.
pub const BANDS: [&'static str; 3] = ["bass", "mid", "treble"];

/// The bus EQ's six cells, as a real settings file writes them: peaking
/// filters at these centres with a Q of 3 and no gain.
///
/// Read off `<VoiceMeeterBUSEQ>` rather than chosen. A parametric EQ's
/// bands are the user's to move, so any spread would have *worked*, but
/// a Voicemeeter user opening this dialog should find their own cells
/// where they left them, which means starting where Voicemeeter starts.
pub const BUS_FREQUENCIES: [u32; 6] = [50, 200, 800, 2_000, 8_000, 12_000];

/// The Q every cell starts at.
pub const BUS_Q: u32 = 3;

/// What a bus's own EQ chain is called, before its index. The chain's name
/// adds the `_buseq` suffix, so this must not carry one itself.
pub const BUS_CHAIN_PREFIX: &'static str = "pipemeter_bus";

/// How many cells a bus EQ has.
pub const BUS_BANDS: usize = 6;

/// Where the noise gate opens with its knob at rest, in dB. At rest it has to
/// be inaudible rather than merely gentle, so this sits below anything the
/// plugin will act on.
pub const GATE_OPEN_AT_REST: &'static str = "-60";

/// Where it shuts then: four decibels lower.
pub const GATE_CLOSE_AT_REST: &'static str = "-64";

/// The noise gate's blend when fully damped: 80 dB of damping on the dry side.
pub const GATE_DRY_AT_REST: &'static str = "0.0001";

pub const GATE_WET_AT_REST: &'static str = "0.9999";

/// The denoiser's blend with its knob at rest: out of the way.
pub const DENOISER_DRY_AT_REST: &'static str = "1";

pub const DENOISER_WET_AT_REST: &'static str = "0";

/// The amplitudes the limiter holds the signal between at rest: 12 dB, the
/// threshold that never acts.
pub const LIMIT_MAX_AT_REST: &'static str = "3.981072";

pub const LIMIT_MIN_AT_REST: &'static str = "-3.981072";

/// Which graph a chain runs.
#[derive(Debug, Clone, Copy, PartialEq, Eq, Structural)]
pub enum Kind {
    /// Three biquads: the virtual strips' EQUALIZER.
    Equaliser,
    /// Gate then compressor: the hardware strips' AUDIBILITY pair.
    Dynamics,
    /// Six parametric cells: a bus's MASTER EQ.
    BusEqualiser,
}

// ---------------------------------------------------------------------
// Names

/// What a cell is called inside the graph.
pub open spec fn cell_name(cell: int) -> Seq<char> {
    "cell"@ + text::decimal((cell + 1) as nat)
}

/// What a cell is called inside the graph, and so how its controls are
/// addressed: `cell1:Freq`, `cell1:Q`, `cell1:Gain`.
#[must_use]
pub fn bus_band(cell: usize) -> (name: String)
    requires
        cell < usize::MAX,
    ensures
        name@ == cell_name(cell as int),
{
    text::cat2("cell", text::number((cell + 1) as u64).as_str())
}

/// The filter-chain address of one of a cell's three controls.
#[must_use]
pub fn bus_control(cell: usize, control: &str) -> (address: String)
    requires
        cell < usize::MAX,
    ensures
        address@ == cell_name(cell as int) + ":"@ + control@,
{
    text::cat3(bus_band(cell).as_str(), ":", control)
}

/// What marks a chain of each kind.
pub open spec fn suffix(kind: Kind) -> Seq<char> {
    match kind {
        Kind::Equaliser => "eq"@,
        Kind::Dynamics => "fx"@,
        Kind::BusEqualiser => "buseq"@,
    }
}

/// What the chain of a sink is called.
pub open spec fn named_after(sink: Seq<char>, kind: Kind) -> Seq<char> {
    sink + "_"@ + suffix(kind)
}

/// What the chain for the strip backed by `sink` is called.
pub fn chain_name(sink: &str, kind: Kind) -> (name: String)
    ensures
        name@ == named_after(sink@, kind),
{
    match kind {
        Kind::Equaliser => text::cat3(sink, "_", "eq"),
        Kind::Dynamics => text::cat3(sink, "_", "fx"),
        Kind::BusEqualiser => text::cat3(sink, "_", "buseq"),
    }
}

/// Whether what is left of a name, once the end is taken off it, is that of
/// a chain.
pub open spec fn is_chain(rest: Seq<char>) -> bool {
    text::ends(rest, "_eq"@) || text::ends(rest, "_fx"@) || text::begins(rest, "pipemeter_"@)
}

/// Whether a name is that of a chain's endpoint.
pub open spec fn is_endpoint(name: Seq<char>) -> bool {
    if text::begins(name, "input."@) {
        is_chain(name.skip(6))
    } else {
        text::begins(name, "output."@) && is_chain(name.skip(7))
    }
}

fn is_chain_name(rest: &[char]) -> (r: bool)
    ensures
        r == is_chain(rest@),
{
    let eq = text::chars_of("_eq");
    let fx = text::chars_of("_fx");
    let ours = text::chars_of("pipemeter_");
    text::ends_with(rest, eq.as_slice()) || text::ends_with(rest, fx.as_slice())
        || text::starts_with(rest, ours.as_slice())
}

/// Whether a node name is one of our chains' endpoints.
///
/// Getting this wrong does not fail loudly: the node simply never becomes
/// routable, and whatever depended on it goes quiet. So it asks the question
/// it means: is this one of ours?
#[must_use]
pub fn is_chain_node(name: &str) -> (r: bool)
    ensures
        r == is_endpoint(name@),
{
    let chars = text::chars_of(name);
    let input = text::chars_of("input.");
    let output = text::chars_of("output.");
    proof {
        reveal_strlit("input.");
        reveal_strlit("output.");
        if chars@.len() >= 6 {
            assert(chars@.subrange(6, chars@.len() as int) =~= chars@.skip(6));
        }
        if chars@.len() >= 7 {
            assert(chars@.subrange(7, chars@.len() as int) =~= chars@.skip(7));
        }
    }
    if text::starts_with(chars.as_slice(), input.as_slice()) {
        is_chain_name(slice_subrange(chars.as_slice(), 6, chars.len()))
    } else if text::starts_with(chars.as_slice(), output.as_slice()) {
        is_chain_name(slice_subrange(chars.as_slice(), 7, chars.len()))
    } else {
        false
    }
}

// ---------------------------------------------------------------------
// Files and helpers

/// The directory of the generated files.
pub open spec fn files_in(runtime: Option<Seq<char>>, temp: Seq<char>) -> Seq<char> {
    text::joined(
        match runtime {
            Some(dir) => dir,
            None => temp,
        },
        "pipemeter"@,
    )
}

/// Where the chains' generated configs live. The runtime directory, since
/// they are regenerated every launch and mean nothing between them.
pub fn config_dir(runtime: Option<&str>, temp: &str) -> (dir: String)
    ensures
        dir@ == files_in(
            match runtime {
                Some(r) => Some(r@),
                None => None,
            },
            temp@,
        ),
{
    match runtime {
        Some(dir) => text::join(dir, "pipemeter"),
        None => text::join(temp, "pipemeter"),
    }
}

/// Where one chain's config lives.
pub fn config_path(dir: &str, name: &str) -> (path: String)
    ensures
        path@ == text::joined(dir@, name@ + ".conf"@),
{
    text::join(dir, text::cat2(name, ".conf").as_str())
}

/// Whether an entry of `/proc` is a helper left over from a previous run,
/// and if so which.
///
/// The helpers are stopped when the mixer exits cleanly. A crash, or a plain
/// `kill`, leaves them orphaned, and since they hold their node names, the
/// next launch would spawn a second set beside them and route through
/// whichever it happened to find.
///
/// Told by a command line naming one of our configs. There is no pid file to
/// go stale, and nothing here can match a process that is not one of ours.
pub fn leftover(entry: &str, command: &str, dir: &str) -> (pid: Option<i32>)
    ensures
        match pid {
            Some(n) => text::parsed_signed(entry@, i32::MAX as nat) == Some(n as int)
                && text::occurs(command@, dir@) && text::occurs(command@, ".conf"@),
            None => text::parsed_signed(entry@, i32::MAX as nat) is None || !text::occurs(
                command@,
                dir@,
            ) || !text::occurs(command@, ".conf"@),
        },
{
    let chars = text::chars_of(entry);
    let line = text::chars_of(command);
    let marker = text::chars_of(dir);
    let conf = text::chars_of(".conf");
    match text::parse_i32(chars.as_slice()) {
        Some(pid) => {
            if text::contains(line.as_slice(), marker.as_slice()) && text::contains(
                line.as_slice(),
                conf.as_slice(),
            ) {
                Some(pid)
            } else {
                None
            }
        },
        None => None,
    }
}

// ---------------------------------------------------------------------
// Graphs

/// What a band is.
pub open spec fn band_filter(name: Seq<char>, label: Seq<char>, freq: nat) -> Filter {
    chain::builtin(
        name,
        label,
        seq![("Freq"@, text::decimal(freq)), ("Q"@, "1.0"@), ("Gain"@, "0.0"@)],
    )
}

/// The limiter that ends every strip graph, resting wide open.
pub open spec fn limiter() -> Filter {
    chain::builtin(
        LIMIT_NODE@,
        "clamp"@,
        seq![("Min"@, LIMIT_MIN_AT_REST@), ("Max"@, LIMIT_MAX_AT_REST@)],
    )
}

/// The last stage of a graph joined to the limiter.
pub open spec fn into_limiter(from: Seq<char>) -> Seq<char> {
    chain::wire(from, LIMIT_NODE@ + ":In"@)
}

/// A graph with the boilerplate every strip's chain shares: stereo on both
/// sides, one port in and one port out.
pub open spec fn strip_graph(
    name: Seq<char>,
    nodes: Seq<Seq<char>>,
    links: Seq<Seq<char>>,
    input: Seq<char>,
    output: Seq<char>,
) -> GraphText {
    GraphText {
        name,
        description: "PipeMeter EQ"@,
        media: true,
        nodes,
        links: Some(links),
        inputs: seq![input],
        outputs: seq![output],
        capture: Side { channels: 2, passive: Some(true) },
        playback: Side { channels: 2, passive: Some(true) },
    }
}

/// Three biquads in series, low shelf to high shelf, and the limiter.
pub open spec fn equaliser(name: Seq<char>) -> GraphText {
    strip_graph(
        name,
        seq![
            chain::filter_line(band_filter("bass"@, "bq_lowshelf"@, 100)),
            chain::filter_line(band_filter("mid"@, "bq_peaking"@, 1_000)),
            chain::filter_line(band_filter("treble"@, "bq_highshelf"@, 8_000)),
            chain::filter_line(limiter()),
        ],
        seq![
            chain::wire("bass:Out"@, "mid:In"@),
            "          { output = \"mid:Out\"  input = \"treble:In\" }"@,
            into_limiter("treble:Out"@),
        ],
        "bass:In"@,
        "lim:Out"@,
    )
}

/// What a cell of the bus equaliser is.
pub open spec fn cell_filter(cell: int) -> Filter {
    chain::builtin(
        cell_name(cell),
        "bq_peaking"@,
        seq![
            ("Freq"@, text::decimal(BUS_FREQUENCIES[cell] as nat)),
            ("Q"@, text::decimal(BUS_Q as nat)),
            ("Gain"@, "0.0"@),
        ],
    )
}

/// A cell joined to the next.
pub open spec fn cell_link(cell: int) -> Seq<char> {
    chain::wire(cell_name(cell) + ":Out"@, cell_name(cell + 1) + ":In"@)
}

/// Six peaking biquads in series.
pub open spec fn bus_equaliser(name: Seq<char>) -> GraphText {
    strip_graph(
        name,
        Seq::new(BUS_BANDS as nat, |i: int| chain::filter_line(cell_filter(i))),
        Seq::new((BUS_BANDS - 1) as nat, |i: int| cell_link(i)),
        "cell1:In"@,
        "cell6:Out"@,
    )
}

/// The denoiser and the blend around it, at the head of the dynamics.
pub open spec fn denoiser_nodes() -> Seq<Seq<char>> {
    seq![
        chain::filter_line(chain::builtin("dcopy"@, "copy"@, seq![])),
        chain::filter_line(chain::ladspa(DENOISER_PLUGIN@, "dn"@, DENOISER_LABEL@, seq![])),
        chain::filter_line(
            chain::builtin(
                "dmix"@,
                "mixer"@,
                seq![("Gain 1"@, DENOISER_DRY_AT_REST@), ("Gain 2"@, DENOISER_WET_AT_REST@)],
            ),
        ),
    ]
}

/// How they are joined, and how they lead into the noise gate.
pub open spec fn denoiser_links() -> Seq<Seq<char>> {
    seq![
        chain::wire("dcopy:Out"@, "dn:Input"@),
        chain::wire("dcopy:Out"@, "dmix:In 1"@),
        chain::wire("dn:Output"@, "dmix:In 2"@),
        chain::wire("dmix:Out"@, "gcopy:In"@),
    ]
}

/// The noise gate, the blend that gives it a floor, the compressor and the
/// limiter.
pub open spec fn gate_nodes() -> Seq<Seq<char>> {
    seq![
        chain::filter_line(chain::builtin("gcopy"@, "copy"@, seq![])),
        chain::filter_line(
            chain::ladspa(
                "caps"@,
                "gate"@,
                "Noisegate"@,
                seq![
                    ("open (dB)"@, GATE_OPEN_AT_REST@),
                    ("attack (ms)"@, "0.0"@),
                    ("close (dB)"@, GATE_CLOSE_AT_REST@),
                ],
            ),
        ),
        chain::filter_line(
            chain::builtin(
                "gmix"@,
                "mixer"@,
                seq![("Gain 1"@, GATE_DRY_AT_REST@), ("Gain 2"@, GATE_WET_AT_REST@)],
            ),
        ),
        chain::filter_line(
            chain::ladspa(
                "caps"@,
                "comp"@,
                "Compress"@,
                seq![
                    ("mode"@, "0"@),
                    ("strength"@, "0.0"@),
                    ("threshold"@, "0.5"@),
                    ("attack"@, "0.75"@),
                    ("release"@, "0.5"@),
                    ("gain (dB)"@, "0.0"@),
                ],
            ),
        ),
        chain::filter_line(limiter()),
    ]
}

/// How they are joined.
pub open spec fn gate_links() -> Seq<Seq<char>> {
    seq![
        chain::wire("gcopy:Out"@, "gate:in"@),
        chain::wire("gcopy:Out"@, "gmix:In 1"@),
        chain::wire("gate:out"@, "gmix:In 2"@),
        chain::wire("gmix:Out"@, "comp:in"@),
        into_limiter("comp:out"@),
    ]
}

/// Gate into compressor, behind the denoiser where there is one.
pub open spec fn dynamics(name: Seq<char>, denoiser: bool) -> GraphText {
    if denoiser {
        strip_graph(
            name,
            denoiser_nodes() + gate_nodes(),
            denoiser_links() + gate_links(),
            "dcopy:In"@,
            "lim:Out"@,
        )
    } else {
        strip_graph(name, gate_nodes(), gate_links(), "gcopy:In"@, "lim:Out"@)
    }
}

/// The graph of each kind of chain.
pub open spec fn graph(name: Seq<char>, kind: Kind, denoiser: bool) -> GraphText {
    match kind {
        Kind::Equaliser => equaliser(name),
        Kind::Dynamics => dynamics(name, denoiser),
        Kind::BusEqualiser => bus_equaliser(name),
    }
}

fn band_line(name: &str, label: &str, freq: u32, q: &str) -> (line: String)
    ensures
        line@ == chain::filter_line(
            chain::builtin(
                name@,
                label@,
                seq![("Freq"@, text::decimal(freq as nat)), ("Q"@, q@), ("Gain"@, "0.0"@)],
            ),
        ),
{
    let mut controls = props::none();
    props::put(&mut controls, "Freq", text::number(freq as u64).as_str());
    props::put(&mut controls, "Q", q);
    props::put(&mut controls, "Gain", "0.0");
    proof {
        assert(props::pairs(controls@) =~= seq![
            ("Freq"@, text::decimal(freq as nat)),
            ("Q"@, q@),
            ("Gain"@, "0.0"@),
        ]);
    }
    chain::builtin_filter(name, label, &controls)
}

fn mixer_line(name: &str, first: &str, second: &str) -> (line: String)
    ensures
        line@ == chain::filter_line(
            chain::builtin(name@, "mixer"@, seq![("Gain 1"@, first@), ("Gain 2"@, second@)]),
        ),
{
    let mut controls = props::none();
    props::put(&mut controls, "Gain 1", first);
    props::put(&mut controls, "Gain 2", second);
    proof {
        assert(props::pairs(controls@) =~= seq![("Gain 1"@, first@), ("Gain 2"@, second@)]);
    }
    chain::builtin_filter(name, "mixer", &controls)
}

/// The limiter that ends every strip graph, resting wide open.
fn limiter_node() -> (line: String)
    ensures
        line@ == chain::filter_line(limiter()),
{
    let mut controls = props::none();
    props::put(&mut controls, "Min", LIMIT_MIN_AT_REST);
    props::put(&mut controls, "Max", LIMIT_MAX_AT_REST);
    proof {
        assert(props::pairs(controls@) =~= limiter().controls);
    }
    chain::builtin_filter(LIMIT_NODE, "clamp", &controls)
}

/// Attach the last stage of a graph to the limiter.
fn link_into_limiter(from: &str) -> (line: String)
    ensures
        line@ == into_limiter(from@),
{
    chain::wired(from, text::cat2(LIMIT_NODE, ":In").as_str())
}

fn wrap(name: &str, nodes: Vec<String>, links: Vec<String>, input: &str, output: &str) -> (g: Graph)
    ensures
        g@ == strip_graph(
            name@,
            text::texts(nodes@),
            text::texts(links@),
            input@,
            output@,
        ),
{
    let mut inputs = text::blank();
    text::write(&mut inputs, input.to_owned());
    let mut outputs = text::blank();
    text::write(&mut outputs, output.to_owned());
    proof {
        assert(text::texts(inputs@) =~= seq![input@]);
        assert(text::texts(outputs@) =~= seq![output@]);
    }
    Graph {
        name: name.to_owned(),
        description: "PipeMeter EQ",
        media: true,
        nodes,
        links: Some(links),
        inputs,
        outputs,
        capture: Side { channels: 2, passive: Some(true) },
        playback: Side { channels: 2, passive: Some(true) },
    }
}

/// Three biquads in series, low shelf to high shelf.
fn equaliser_graph(name: &str) -> (g: Graph)
    ensures
        g@ == equaliser(name@),
{
    let mut nodes = text::blank();
    text::write(&mut nodes, band_line(BANDS[0], "bq_lowshelf", FREQUENCIES[0], "1.0"));
    text::write(&mut nodes, band_line(BANDS[1], "bq_peaking", FREQUENCIES[1], "1.0"));
    text::write(&mut nodes, band_line(BANDS[2], "bq_highshelf", FREQUENCIES[2], "1.0"));
    text::write(&mut nodes, limiter_node());
    let mut links = text::blank();
    text::write(&mut links, chain::wired("bass:Out", "mid:In"));
    text::write(
        &mut links,
        "          { output = \"mid:Out\"  input = \"treble:In\" }".to_owned(),
    );
    text::write(&mut links, link_into_limiter("treble:Out"));
    proof {
        let want = equaliser(name@);
        assert(text::texts(nodes@) =~= want.nodes);
        assert(text::texts(links@) =~= want.links->Some_0);
    }
    wrap(name, nodes, links, "bass:In", "lim:Out")
}

/// Six peaking biquads in series.
///
/// All three controls of every cell are writable at runtime, which is what
/// makes it parametric rather than six fixed bands: `bq_peaking` takes
/// Freq, Q and Gain, and filter-chain will accept all of them while the
/// chain is running.
fn bus_equaliser_graph(name: &str) -> (g: Graph)
    ensures
        g@ == bus_equaliser(name@),
{
    let ghost want = bus_equaliser(name@);
    let ghost want_links = want.links->Some_0;
    let q = text::number(BUS_Q as u64);
    let mut nodes = text::blank();
    for i in 0..BUS_BANDS
        invariant
            want == bus_equaliser(name@),
            q@ == text::decimal(BUS_Q as nat),
            text::texts(nodes@) == want.nodes.take(i as int),
    {
        text::write(
            &mut nodes,
            band_line(bus_band(i).as_str(), "bq_peaking", BUS_FREQUENCIES[i], q.as_str()),
        );
        proof {
            assert(want.nodes.take(i + 1) =~= want.nodes.take(i as int).push(
                chain::filter_line(cell_filter(i as int)),
            ));
        }
    }
    let mut links = text::blank();
    for i in 0..BUS_BANDS - 1
        invariant
            want_links == Seq::new((BUS_BANDS - 1) as nat, |i: int| cell_link(i)),
            text::texts(links@) == want_links.take(i as int),
    {
        let from = text::cat2(bus_band(i).as_str(), ":Out");
        let to = text::cat2(bus_band(i + 1).as_str(), ":In");
        text::write(&mut links, chain::wired(from.as_str(), to.as_str()));
        proof {
            assert(want_links.take(i + 1) =~= want_links.take(i as int).push(cell_link(i as int)));
        }
    }
    proof {
        assert(want.nodes.take(BUS_BANDS as int) =~= want.nodes);
        assert(want_links.take(BUS_BANDS - 1) =~= want_links);
    }
    wrap(name, nodes, links, "cell1:In", "cell6:Out")
}

fn denoiser_page() -> (pages: (Vec<String>, Vec<String>))
    ensures
        text::texts(pages.0@) == denoiser_nodes(),
        text::texts(pages.1@) == denoiser_links(),
{
    let mut nodes = text::blank();
    text::write(&mut nodes, chain::builtin_filter("dcopy", "copy", &props::none()));
    text::write(
        &mut nodes,
        chain::ladspa_filter(DENOISER_PLUGIN, "dn", DENOISER_LABEL, &props::none()),
    );
    text::write(&mut nodes, mixer_line("dmix", DENOISER_DRY_AT_REST, DENOISER_WET_AT_REST));
    let mut links = text::blank();
    text::write(&mut links, chain::wired("dcopy:Out", "dn:Input"));
    text::write(&mut links, chain::wired("dcopy:Out", "dmix:In 1"));
    text::write(&mut links, chain::wired("dn:Output", "dmix:In 2"));
    text::write(&mut links, chain::wired("dmix:Out", "gcopy:In"));
    proof {
        assert(text::texts(nodes@) =~= denoiser_nodes());
        assert(text::texts(links@) =~= denoiser_links());
    }
    (nodes, links)
}

fn gate_page() -> (pages: (Vec<String>, Vec<String>))
    ensures
        text::texts(pages.0@) == gate_nodes(),
        text::texts(pages.1@) == gate_links(),
{
    let mut gate = props::none();
    props::put(&mut gate, "open (dB)", GATE_OPEN_AT_REST);
    props::put(&mut gate, "attack (ms)", "0.0");
    props::put(&mut gate, "close (dB)", GATE_CLOSE_AT_REST);
    proof {
        assert(props::pairs(gate@) =~= seq![
            ("open (dB)"@, GATE_OPEN_AT_REST@),
            ("attack (ms)"@, "0.0"@),
            ("close (dB)"@, GATE_CLOSE_AT_REST@),
        ]);
    }
    let mut comp = props::none();
    props::put(&mut comp, "mode", "0");
    props::put(&mut comp, "strength", "0.0");
    props::put(&mut comp, "threshold", "0.5");
    props::put(&mut comp, "attack", "0.75");
    props::put(&mut comp, "release", "0.5");
    props::put(&mut comp, "gain (dB)", "0.0");
    proof {
        assert(props::pairs(comp@) =~= seq![
            ("mode"@, "0"@),
            ("strength"@, "0.0"@),
            ("threshold"@, "0.5"@),
            ("attack"@, "0.75"@),
            ("release"@, "0.5"@),
            ("gain (dB)"@, "0.0"@),
        ]);
    }
    let mut nodes = text::blank();
    text::write(&mut nodes, chain::builtin_filter("gcopy", "copy", &props::none()));
    text::write(&mut nodes, chain::ladspa_filter("caps", "gate", "Noisegate", &gate));
    text::write(&mut nodes, mixer_line("gmix", GATE_DRY_AT_REST, GATE_WET_AT_REST));
    text::write(&mut nodes, chain::ladspa_filter("caps", "comp", "Compress", &comp));
    text::write(&mut nodes, limiter_node());
    let mut links = text::blank();
    text::write(&mut links, chain::wired("gcopy:Out", "gate:in"));
    text::write(&mut links, chain::wired("gcopy:Out", "gmix:In 1"));
    text::write(&mut links, chain::wired("gate:out", "gmix:In 2"));
    text::write(&mut links, chain::wired("gmix:Out", "comp:in"));
    text::write(&mut links, link_into_limiter("comp:out"));
    proof {
        assert(text::texts(nodes@) =~= gate_nodes());
        assert(text::texts(links@) =~= gate_links());
    }
    (nodes, links)
}

/// Gate into compressor. Both are CAPS plugins, which are a standard part of
/// a desktop's LADSPA set; a machine without them gets a chain that fails to
/// start and a strip that carries on without dynamics.
///
/// A copy feeds both the noise gate and a mixer, and the mixer blends the
/// ungated signal back in, which is how there comes to be a floor, since caps
/// Noisegate shuts fully or not at all.
///
/// `caps` Compress runs in mode 0, and the mode is not optional. Its default
/// is mode 1, which is not transparent: measured with the strength at zero
/// it still took a -8.73 dBFS tone to -11.60.
///
/// The denoiser sits at the head, before the noise gate, and only if one is
/// installed: a chain naming a plugin that is not there does not start, and
/// would take the strip with it.
fn dynamics_graph(name: &str, denoiser: bool) -> (g: Graph)
    ensures
        g@ == dynamics(name@, denoiser),
{
    let (gate_lines, gate_wires) = gate_page();
    if denoiser {
        let (mut nodes, mut links) = denoiser_page();
        text::write_all(&mut nodes, &gate_lines);
        text::write_all(&mut links, &gate_wires);
        wrap(name, nodes, links, "dcopy:In", "lim:Out")
    } else {
        wrap(name, gate_lines, gate_wires, "gcopy:In", "lim:Out")
    }
}

/// The config for one chain.
///
/// `node.passive` on both ends keeps the chain from running when nothing is
/// connected to it, so an unused strip costs nothing. `denoiser` says
/// whether one is installed.
pub fn config(name: &str, kind: Kind, denoiser: bool) -> (r: String)
    ensures
        r@ == chain::file(graph(name@, kind, denoiser)),
{
    let g = match kind {
        Kind::Equaliser => equaliser_graph(name),
        Kind::Dynamics => dynamics_graph(name, denoiser),
        Kind::BusEqualiser => bus_equaliser_graph(name),
    };
    g.config()
}

// ---------------------------------------------------------------------
// Laws

/// Both endpoints of every strip's chain are recognised, whatever the strip
/// is called.
pub proof fn strip_chains_are_recognised(sink: Seq<char>, kind: Kind)
    requires
        kind != Kind::BusEqualiser,
    ensures
        is_endpoint("input."@ + named_after(sink, kind)),
        is_endpoint("output."@ + named_after(sink, kind)),
{
    let name = named_after(sink, kind);
    reveal_strlit("_eq");
    reveal_strlit("_fx");
    reveal_strlit("eq");
    reveal_strlit("fx");
    reveal_strlit("_");
    if kind == Kind::Equaliser {
        assert(name.subrange(name.len() - 3, name.len() as int) =~= "_eq"@);
    } else {
        assert(name.subrange(name.len() - 3, name.len() as int) =~= "_fx"@);
    }
    endpoints_of_a_chain(name);
}

/// Both endpoints of every chain with a name of ours are recognised.
pub proof fn chains_of_ours_are_recognised(rest: Seq<char>)
    ensures
        is_endpoint("input."@ + ("pipemeter_"@ + rest)),
        is_endpoint("output."@ + ("pipemeter_"@ + rest)),
{
    let name = "pipemeter_"@ + rest;
    reveal_strlit("pipemeter_");
    assert(name.subrange(0, 10) =~= "pipemeter_"@);
    endpoints_of_a_chain(name);
}

proof fn endpoints_of_a_chain(name: Seq<char>)
    requires
        is_chain(name),
    ensures
        is_endpoint("input."@ + name),
        is_endpoint("output."@ + name),
{
    reveal_strlit("input.");
    reveal_strlit("output.");
    let i = "input."@ + name;
    let o = "output."@ + name;
    assert(i.subrange(0, 6) =~= "input."@);
    assert(i.skip(6) =~= name);
    assert(o.subrange(0, 7) =~= "output."@);
    assert(o.skip(7) =~= name);
    assert(o[0] == 'o');
    assert("input."@[0] == 'i');
    if text::begins(o, "input."@) {
        assert(o.subrange(0, 6)[0] == 'o');
    }
}

/// A strip's chain is stereo in and stereo out, whatever its kind, with one
/// port of the graph on either side: a chain declaring more outputs than its
/// capture side has channels passes silence.
pub proof fn strip_chains_are_stereo(name: Seq<char>, kind: Kind, denoiser: bool)
    ensures
        ({
            let g = graph(name, kind, denoiser);
            &&& g.capture.channels == 2
            &&& g.playback.channels == 2
            &&& g.inputs.len() == 1
            &&& g.outputs.len() == 1
        }),
{
}

/// The graph only names the denoiser's plugin where it is installed.
pub proof fn the_denoiser_changes_nothing_else(name: Seq<char>, kind: Kind)
    ensures
        kind != Kind::Dynamics ==> graph(name, kind, true) == graph(name, kind, false),
        ({
            let with = graph(name, Kind::Dynamics, true);
            let without = graph(name, Kind::Dynamics, false);
            &&& with.nodes == denoiser_nodes() + without.nodes
            &&& with.links == Some(denoiser_links() + without.links->Some_0)
            &&& with.outputs == without.outputs
        }),
{
}

/// Without the denoiser, the dynamics run in one line: what comes in is
/// copied, the noise gate hears it, a mixer takes the copy at the dry gain
/// and what the noise gate lets through at the wet one, and then it is
/// compressed and held to its limit. Nothing else feeds any of them.
pub proof fn the_dynamics_run_in_one_line(name: Seq<char>)
    ensures
        ({
            let g = graph(name, Kind::Dynamics, false);
            let links = g.links->Some_0;
            &&& g.links is Some
            &&& links.len() == 5
            &&& chain::only_feeds(links, "gcopy:Out"@, "gate:in"@)
            &&& chain::only_feeds(links, "gcopy:Out"@, "gmix:In 1"@)
            &&& chain::only_feeds(links, "gate:out"@, "gmix:In 2"@)
            &&& chain::only_feeds(links, "gmix:Out"@, "comp:in"@)
            &&& chain::only_feeds(links, "comp:out"@, "lim:In"@)
            &&& g.inputs == seq!["gcopy:In"@]
            &&& g.outputs == seq!["lim:Out"@]
            &&& g.nodes.len() == 5
        }),
{
    let links = gate_links();
    let ends = gate_ends();
    gate_ends_are_apart();
    limiter_link("comp:out"@);
    assert(chain::joins_these(links, ends));
    chain::each_input_has_one_feed(links, ends, 0);
    chain::each_input_has_one_feed(links, ends, 1);
    chain::each_input_has_one_feed(links, ends, 2);
    chain::each_input_has_one_feed(links, ends, 3);
    chain::each_input_has_one_feed(links, ends, 4);
}

/// What the noise gate's part of a chain joins to what.
spec fn gate_ends() -> Seq<(Seq<char>, Seq<char>)> {
    seq![
        ("gcopy:Out"@, "gate:in"@),
        ("gcopy:Out"@, "gmix:In 1"@),
        ("gate:out"@, "gmix:In 2"@),
        ("gmix:Out"@, "comp:in"@),
        ("comp:out"@, "lim:In"@),
    ]
}

/// What the denoiser's part of a chain joins to what.
spec fn denoiser_ends() -> Seq<(Seq<char>, Seq<char>)> {
    seq![
        ("dcopy:Out"@, "dn:Input"@),
        ("dcopy:Out"@, "dmix:In 1"@),
        ("dn:Output"@, "dmix:In 2"@),
        ("dmix:Out"@, "gcopy:In"@),
    ]
}

/// The limiter goes by its name in links.
proof fn limiter_link(from: Seq<char>)
    ensures
        into_limiter(from) == chain::wire(from, "lim:In"@),
{
    reveal_strlit("lim");
    reveal_strlit(":In");
    reveal_strlit("lim:In");
    assert(LIMIT_NODE@ + ":In"@ =~= "lim:In"@);
}

/// The names in the noise gate's part have no quotes in them, and no input
/// stands there twice.
proof fn gate_ends_are_apart()
    ensures
        forall|k: int| 0 <= k < gate_ends().len() ==> !(#[trigger] gate_ends()[k]).0.contains('"'),
        forall|j: int, k: int|
            0 <= j < gate_ends().len() && 0 <= k < gate_ends().len() && j != k ==> (
            #[trigger] gate_ends()[j]).1 != (#[trigger] gate_ends()[k]).1,
{
    reveal_strlit("gcopy:Out");
    reveal_strlit("gate:in");
    reveal_strlit("gmix:In 1");
    reveal_strlit("gate:out");
    reveal_strlit("gmix:In 2");
    reveal_strlit("gmix:Out");
    reveal_strlit("comp:in");
    reveal_strlit("comp:out");
    reveal_strlit("lim:In");
    assert("gmix:In 1"@[8] == '1' && "gmix:In 2"@[8] == '2');
    assert("gate:in"@[0] == 'g' && "comp:in"@[0] == 'c');
    assert("lim:In"@.len() == 6 && "gate:in"@.len() == 7 && "comp:in"@.len() == 7);
    assert("gmix:In 1"@.len() == 9 && "gmix:In 2"@.len() == 9);
}

/// The names in the denoiser's part have no quotes in them, and no input
/// stands there twice, nor in the noise gate's part.
proof fn denoiser_ends_are_apart()
    ensures
        forall|k: int|
            0 <= k < denoiser_ends().len() ==> !(
            #[trigger] denoiser_ends()[k]).0.contains('"'),
        forall|j: int, k: int|
            0 <= j < denoiser_ends().len() && 0 <= k < denoiser_ends().len() && j != k ==> (
            #[trigger] denoiser_ends()[j]).1 != (#[trigger] denoiser_ends()[k]).1,
        forall|j: int, k: int|
            0 <= j < denoiser_ends().len() && 0 <= k < gate_ends().len() ==> (
            #[trigger] denoiser_ends()[j]).1 != (#[trigger] gate_ends()[k]).1,
{
    reveal_strlit("dcopy:Out");
    reveal_strlit("dn:Input");
    reveal_strlit("dmix:In 1");
    reveal_strlit("dn:Output");
    reveal_strlit("dmix:In 2");
    reveal_strlit("dmix:Out");
    reveal_strlit("gcopy:In");
    reveal_strlit("gate:in");
    reveal_strlit("gmix:In 1");
    reveal_strlit("gmix:In 2");
    reveal_strlit("comp:in");
    reveal_strlit("lim:In");
    assert("dmix:In 1"@[8] == '1' && "dmix:In 2"@[8] == '2');
    assert("dmix:In 1"@[0] == 'd' && "dmix:In 2"@[0] == 'd');
    assert("gmix:In 1"@[0] == 'g' && "gmix:In 2"@[0] == 'g');
    assert("dn:Input"@[0] == 'd' && "gcopy:In"@[0] == 'g');
    assert("dn:Input"@.len() == 8 && "gcopy:In"@.len() == 8);
    assert("lim:In"@.len() == 6 && "gate:in"@.len() == 7 && "comp:in"@.len() == 7);
    assert("gmix:In 1"@.len() == 9 && "gmix:In 2"@.len() == 9);
    assert("dmix:In 1"@.len() == 9 && "dmix:In 2"@.len() == 9);
}

/// With the denoiser, what comes in is copied first, the denoiser hears it,
/// and a mixer takes the copy at its first gain and what is left of the
/// noise at its second. What the mixer gives is what the rest of the
/// dynamics would have been given, and they run as they do without.
pub proof fn the_denoiser_comes_before_the_dynamics(name: Seq<char>)
    ensures
        ({
            let g = graph(name, Kind::Dynamics, true);
            let links = g.links->Some_0;
            &&& g.links is Some
            &&& links.len() == 9
            &&& chain::only_feeds(links, "dcopy:Out"@, "dn:Input"@)
            &&& chain::only_feeds(links, "dcopy:Out"@, "dmix:In 1"@)
            &&& chain::only_feeds(links, "dn:Output"@, "dmix:In 2"@)
            &&& chain::only_feeds(links, "dmix:Out"@, "gcopy:In"@)
            &&& chain::only_feeds(links, "gcopy:Out"@, "gate:in"@)
            &&& chain::only_feeds(links, "gcopy:Out"@, "gmix:In 1"@)
            &&& chain::only_feeds(links, "gate:out"@, "gmix:In 2"@)
            &&& chain::only_feeds(links, "gmix:Out"@, "comp:in"@)
            &&& chain::only_feeds(links, "comp:out"@, "lim:In"@)
            &&& g.inputs == seq!["dcopy:In"@]
            &&& g.outputs == seq!["lim:Out"@]
            &&& g.nodes.len() == 8
        }),
{
    let links = denoiser_links() + gate_links();
    let ends = denoiser_ends() + gate_ends();
    gate_ends_are_apart();
    denoiser_ends_are_apart();
    limiter_link("comp:out"@);
    assert(chain::joins_these(denoiser_links(), denoiser_ends()));
    assert(chain::joins_these(gate_links(), gate_ends()));
    assert forall|k: int| 0 <= k < ends.len() implies !(#[trigger] ends[k]).0.contains('"')
        && links[k] == chain::wire(ends[k].0, ends[k].1) by {
        if k < 4 {
            assert(ends[k] == denoiser_ends()[k]);
            assert(links[k] == denoiser_links()[k]);
        } else {
            assert(ends[k] == gate_ends()[k - 4]);
            assert(links[k] == gate_links()[k - 4]);
        }
    }
    assert(chain::joins_these(links, ends));
    assert forall|j: int, k: int|
        0 <= j < ends.len() && 0 <= k < ends.len() && j != k implies (#[trigger] ends[j]).1 != (
    #[trigger] ends[k]).1 by {
        if j < 4 {
            assert(ends[j] == denoiser_ends()[j]);
        } else {
            assert(ends[j] == gate_ends()[j - 4]);
        }
        if k < 4 {
            assert(ends[k] == denoiser_ends()[k]);
        } else {
            assert(ends[k] == gate_ends()[k - 4]);
        }
    }
    chain::each_input_has_one_feed(links, ends, 0);
    chain::each_input_has_one_feed(links, ends, 1);
    chain::each_input_has_one_feed(links, ends, 2);
    chain::each_input_has_one_feed(links, ends, 3);
    chain::each_input_has_one_feed(links, ends, 4);
    chain::each_input_has_one_feed(links, ends, 5);
    chain::each_input_has_one_feed(links, ends, 6);
    chain::each_input_has_one_feed(links, ends, 7);
    chain::each_input_has_one_feed(links, ends, 8);
}

/// The mixer behind the noise gate starts all but wet, and the one behind
/// the denoiser dry. The noise gate opens before it closes, the compressor
/// does nothing yet, and the limiter stands where it lets everything through.
pub proof fn the_dynamics_start_at_rest(name: Seq<char>, denoiser: bool)
    ensures
        ({
            let nodes = graph(name, Kind::Dynamics, denoiser).nodes;
            &&& nodes.contains(
                chain::filter_line(
                    chain::builtin(
                        "gmix"@,
                        "mixer"@,
                        seq![("Gain 1"@, "0.0001"@), ("Gain 2"@, "0.9999"@)],
                    ),
                ),
            )
            &&& nodes.contains(chain::filter_line(chain::builtin("gcopy"@, "copy"@, seq![])))
            &&& nodes.contains(
                chain::filter_line(
                    chain::ladspa(
                        "caps"@,
                        "gate"@,
                        "Noisegate"@,
                        seq![
                            ("open (dB)"@, "-60"@),
                            ("attack (ms)"@, "0.0"@),
                            ("close (dB)"@, "-64"@),
                        ],
                    ),
                ),
            )
            &&& nodes.contains(
                chain::filter_line(
                    chain::ladspa(
                        "caps"@,
                        "comp"@,
                        "Compress"@,
                        seq![
                            ("mode"@, "0"@),
                            ("strength"@, "0.0"@),
                            ("threshold"@, "0.5"@),
                            ("attack"@, "0.75"@),
                            ("release"@, "0.5"@),
                            ("gain (dB)"@, "0.0"@),
                        ],
                    ),
                ),
            )
            &&& nodes.contains(
                chain::filter_line(
                    chain::builtin(
                        "lim"@,
                        "clamp"@,
                        seq![("Min"@, "-3.981072"@), ("Max"@, "3.981072"@)],
                    ),
                ),
            )
            &&& denoiser ==> nodes.contains(
                chain::filter_line(
                    chain::builtin("dmix"@, "mixer"@, seq![("Gain 1"@, "1"@), ("Gain 2"@, "0"@)]),
                ),
            )
            &&& denoiser ==> nodes.contains(
                chain::filter_line(chain::builtin("dcopy"@, "copy"@, seq![])),
            )
            &&& denoiser ==> nodes.contains(
                chain::filter_line(
                    chain::ladspa("librnnoise_ladspa"@, "dn"@, "noise_suppressor_mono"@, seq![]),
                ),
            )
        }),
{
    let nodes = graph(name, Kind::Dynamics, denoiser).nodes;
    let n = if denoiser {
        3int
    } else {
        0
    };
    assert(nodes[n] == gate_nodes()[0]);
    assert(nodes[n + 1] == gate_nodes()[1]);
    assert(nodes[n + 2] == gate_nodes()[2]);
    assert(nodes[n + 3] == gate_nodes()[3]);
    assert(nodes[n + 4] == gate_nodes()[4]);
    if denoiser {
        assert(nodes[0] == denoiser_nodes()[0]);
        assert(nodes[1] == denoiser_nodes()[1]);
        assert(nodes[2] == denoiser_nodes()[2]);
    }
}

/// The equaliser's three bands run in series, each tuned to its own
/// frequency and flat to begin with, into the limiter.
pub proof fn the_bands_run_in_series(name: Seq<char>, denoiser: bool)
    ensures
        ({
            let g = graph(name, Kind::Equaliser, denoiser);
            let links = g.links->Some_0;
            &&& g.links is Some
            &&& links.len() == 3
            &&& links[0] == chain::wire("bass:Out"@, "mid:In"@)
            &&& links[1] == "          { output = \"mid:Out\"  input = \"treble:In\" }"@
            &&& links[2] == chain::wire("treble:Out"@, "lim:In"@)
            &&& g.inputs == seq!["bass:In"@]
            &&& g.outputs == seq!["lim:Out"@]
            &&& g.nodes.len() == 4
            &&& g.nodes[0] == chain::filter_line(
                chain::builtin(
                    "bass"@,
                    "bq_lowshelf"@,
                    seq![("Freq"@, text::decimal(100)), ("Q"@, "1.0"@), ("Gain"@, "0.0"@)],
                ),
            )
            &&& g.nodes[1] == chain::filter_line(
                chain::builtin(
                    "mid"@,
                    "bq_peaking"@,
                    seq![("Freq"@, text::decimal(1000)), ("Q"@, "1.0"@), ("Gain"@, "0.0"@)],
                ),
            )
            &&& g.nodes[2] == chain::filter_line(
                chain::builtin(
                    "treble"@,
                    "bq_highshelf"@,
                    seq![("Freq"@, text::decimal(8000)), ("Q"@, "1.0"@), ("Gain"@, "0.0"@)],
                ),
            )
            &&& g.nodes[3] == chain::filter_line(
                chain::builtin(
                    "lim"@,
                    "clamp"@,
                    seq![("Min"@, "-3.981072"@), ("Max"@, "3.981072"@)],
                ),
            )
        }),
{
    limiter_link("treble:Out"@);
}

/// A bus's cells run in series from the first to the last, each with its own
/// frequency, every one as narrow as the others and flat to begin with.
pub proof fn the_cells_run_in_series(name: Seq<char>, denoiser: bool, k: int)
    ensures
        ({
            let g = graph(name, Kind::BusEqualiser, denoiser);
            let links = g.links->Some_0;
            let tuned = seq![50nat, 200, 800, 2_000, 8_000, 12_000];
            &&& g.links is Some
            &&& g.nodes.len() == 6
            &&& links.len() == 5
            &&& 0 <= k < 5 ==> links[k] == chain::wire(
                "cell"@ + text::decimal((k + 1) as nat) + ":Out"@,
                "cell"@ + text::decimal((k + 2) as nat) + ":In"@,
            )
            &&& 0 <= k < 6 ==> g.nodes[k] == chain::filter_line(
                chain::builtin(
                    "cell"@ + text::decimal((k + 1) as nat),
                    "bq_peaking"@,
                    seq![
                        ("Freq"@, text::decimal(tuned[k])),
                        ("Q"@, text::decimal(3)),
                        ("Gain"@, "0.0"@),
                    ],
                ),
            )
            &&& g.inputs == seq!["cell"@ + text::decimal(1) + ":In"@]
            &&& g.outputs == seq!["cell"@ + text::decimal(6) + ":Out"@]
        }),
{
    reveal_with_fuel(text::decimal, 2);
    reveal_strlit("cell");
    reveal_strlit(":In");
    reveal_strlit(":Out");
    reveal_strlit("cell1:In");
    reveal_strlit("cell6:Out");
    assert("cell"@ + text::decimal(1) + ":In"@ =~= "cell1:In"@);
    assert("cell"@ + text::decimal(6) + ":Out"@ =~= "cell6:Out"@);
}

/// Every strip chain is known by what it was named, shows the same title to
/// other programs, and only follows what it is joined to, at both ends.
pub proof fn a_strip_chain_follows_what_it_is_joined_to(
    name: Seq<char>,
    kind: Kind,
    denoiser: bool,
)
    ensures
        ({
            let g = graph(name, kind, denoiser);
            &&& g.name == name
            &&& g.description == "PipeMeter EQ"@
            &&& g.media
            &&& g.capture.channels == 2
            &&& g.capture.passive == Some(true)
            &&& g.playback.channels == 2
            &&& g.playback.passive == Some(true)
        }),
{
}

/// A chain is named after what it serves and what it is, so no two of one
/// sink share a name.
pub proof fn chains_of_one_sink_have_names_of_their_own(sink: Seq<char>, a: Kind, b: Kind)
    ensures
        named_after(sink, Kind::Equaliser) == sink + "_eq"@,
        named_after(sink, Kind::Dynamics) == sink + "_fx"@,
        named_after(sink, Kind::BusEqualiser) == sink + "_buseq"@,
        named_after(sink, a) == named_after(sink, b) ==> a == b,
{
    reveal_strlit("_");
    reveal_strlit("eq");
    reveal_strlit("fx");
    reveal_strlit("buseq");
    reveal_strlit("_eq");
    reveal_strlit("_fx");
    reveal_strlit("_buseq");
    assert(named_after(sink, Kind::Equaliser) =~= sink + "_eq"@);
    assert(named_after(sink, Kind::Dynamics) =~= sink + "_fx"@);
    assert(named_after(sink, Kind::BusEqualiser) =~= sink + "_buseq"@);
    let n = sink.len() as int;
    assert((sink + "_eq"@)[n + 1] == 'e');
    assert((sink + "_fx"@)[n + 1] == 'f');
    assert((sink + "_buseq"@)[n + 1] == 'b');
}

/// A node is an end of a chain of ours exactly where its name is one of the
/// two words before a name that ends as a strip's chain does or begins as
/// everything of ours does.
pub proof fn an_end_has_its_word_before_a_name(name: Seq<char>)
    ensures
        is_endpoint(name) == exists|rest: Seq<char>|
            {
                &&& name == "input."@ + rest || name == "output."@ + rest
                &&& #[trigger] text::ends(rest, "_eq"@) || text::ends(rest, "_fx"@)
                    || text::begins(rest, "pipemeter_"@)
            },
{
    reveal_strlit("input.");
    reveal_strlit("output.");
    assert("input."@.len() == 6 && "output."@.len() == 7);
    assert("input."@[0] == 'i' && "output."@[0] == 'o');
    if is_endpoint(name) {
        if text::begins(name, "input."@) {
            let rest = name.skip(6);
            assert(name =~= "input."@ + rest) by {
                assert(name.subrange(0, 6) =~= "input."@);
                assert(name =~= name.subrange(0, 6) + rest);
            }
            assert(text::ends(rest, "_eq"@) || text::ends(rest, "_fx"@) || text::begins(
                rest,
                "pipemeter_"@,
            ));
        } else {
            let rest = name.skip(7);
            assert(name =~= "output."@ + rest) by {
                assert(name.subrange(0, 7) =~= "output."@);
                assert(name =~= name.subrange(0, 7) + rest);
            }
            assert(text::ends(rest, "_eq"@) || text::ends(rest, "_fx"@) || text::begins(
                rest,
                "pipemeter_"@,
            ));
        }
    }
    if exists|rest: Seq<char>|
        {
            &&& name == "input."@ + rest || name == "output."@ + rest
            &&& #[trigger] text::ends(rest, "_eq"@) || text::ends(rest, "_fx"@) || text::begins(
                rest,
                "pipemeter_"@,
            )
        } {
        let rest = choose|rest: Seq<char>|
            {
                &&& name == "input."@ + rest || name == "output."@ + rest
                &&& #[trigger] text::ends(rest, "_eq"@) || text::ends(rest, "_fx"@)
                    || text::begins(rest, "pipemeter_"@)
            };
        assert(is_chain(rest));
        if name == "input."@ + rest {
            assert(name.subrange(0, 6) =~= "input."@);
            assert(name.skip(6) =~= rest);
        } else {
            assert(name[0] == 'o');
            assert(name.subrange(0, 7) =~= "output."@);
            assert(name.skip(7) =~= rest);
            if text::begins(name, "input."@) {
                assert(name.subrange(0, 6)[0] == 'i');
            }
        }
    }
}

/// The files are under the runtime directory where there is one, whatever
/// the temporary one is, and under the temporary one where there is none.
pub proof fn files_live_in_the_runtime_directory(dir: Seq<char>, temp: Seq<char>)
    ensures
        files_in(Some(dir), temp) == text::joined(dir, "pipemeter"@),
        files_in(None, temp) == text::joined(temp, "pipemeter"@),
{
}

/// The bands are listed as they stand in the graph, each at its frequency,
/// and a cell is named by its number, counted from one.
pub proof fn bands_are_listed_in_order(cell: int)
    ensures
        BANDS@[0]@ == "bass"@ && BANDS@[1]@ == "mid"@ && BANDS@[2]@ == "treble"@,
        FREQUENCIES@[0] == 100 && FREQUENCIES@[1] == 1_000 && FREQUENCIES@[2] == 8_000,
        BUS_BANDS == 6,
        BUS_Q == 3,
        BUS_CHAIN_PREFIX@ == "pipemeter_bus"@,
        0 <= cell ==> cell_name(cell) == "cell"@ + text::decimal((cell + 1) as nat),
{
}

/// A control of a cell is the cell's name and its own, with a colon between.
pub proof fn a_cells_control_names_the_cell(
    cell: usize,
    control: &str,
    band: String,
    address: String,
)
    requires
        cell < usize::MAX,
        call_ensures(bus_band, (cell,), band),
        call_ensures(bus_control, (cell, control), address),
    ensures
        band@ == "cell"@ + text::decimal((cell + 1) as nat),
        address@ == band@ + ":"@ + control@,
{
}

/// A process is one of ours that was left behind exactly where it has a
/// number and its command names our directory and one of our files.
pub proof fn only_a_helper_of_ours_is_left(
    n: nat,
    entry: &str,
    command: &str,
    dir: &str,
    pid: Option<i32>,
)
    requires
        call_ensures(leftover, (entry, command, dir), pid),
    ensures
        entry@ == text::decimal(n) && n <= i32::MAX && text::occurs(command@, dir@) && text::occurs(
            command@,
            ".conf"@,
        ) ==> pid == Some(n as i32),
        !text::occurs(command@, dir@) || !text::occurs(command@, ".conf"@) ==> pid is None,
        pid is Some ==> text::parsed_signed(entry@, i32::MAX as nat) is Some,
{
    text::signed_numbers_parse(n as int, n);
    if n <= i32::MAX {
        text::signed_numbers_parse(n as int, i32::MAX as nat);
    }
}

} // verus!
