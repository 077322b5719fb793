//! The virtual sinks that back the mixer's own strips and buses.
//!
//! Voicemeeter ships fixed virtual devices (VAIO, AUX, VAIO 3 on the input
//! side and B1-B3 on the output side) and the two sides face opposite ways.
//!
//! The input ones are what applications **play into**, so they are ordinary
//! sinks and the desktop lists them as output devices. That is right, and it
//! is what Windows does too: "Voicemeeter Input" is a playback device there.
//!
//! The buses are what applications **record from**, through the monitor of
//! the sink that stands for the bus.
//!
//! They *do* linger past exit. Other applications and the desktop's own
//! routing point at these devices; tearing them down on quit would silently
//! break every one of those assignments, and KDE would scatter the streams
//! onto whatever it picked next. They are removed only when asked, from the
//! menu.
//!
//! The cost of lingering is that a second run must not create a second set,
//! so creation skips any name already present.

use vstd::prelude::*;

use crate::lists;
use crate::props;
use crate::text;

verus! {

/// A virtual sink to create at startup.
#[derive(Debug, Clone, Copy)]
pub struct Spec {
    /// `PipeWire` node name, e.g. `pipemeter_main`.
    pub name: &'static str,
    /// Human-readable name shown by other applications.
    pub description: &'static str,
    /// What the desktop should file it under.
    pub class: &'static str,
}

/// A virtual sink as the contracts see it.
pub struct SpecText {
    pub name: Seq<char>,
    pub description: Seq<char>,
    pub class: Seq<char>,
}

impl View for Spec {
    type V = SpecText;

    open spec fn view(&self) -> SpecText {
        SpecText { name: self.name@, description: self.description@, class: self.class@ }
    }
}

/// Applications play into these, so they belong with the speakers.
pub const CLASS_INPUT: &'static str = "Audio/Sink";

/// Applications record from these.
///
/// They are plain sinks, and what a capture application reads is the sink's
/// monitor. Declaring them `Audio/Source/Virtual` puts them in the desktop's
/// microphone list, which is where they belong and is what Voicemeeter does,
/// but a node created that way through this factory carries no audio at all:
/// playing into one and recording from it measures digital silence.
///
/// Discoverability is not worth silence, so they stay sinks.
pub const CLASS_BUS: &'static str = "Audio/Sink";

/// What the names of all of them begin with.
pub const PREFIX: &'static str = "pipemeter_";

/// The sink applications should play into when the mixer is holding the
/// system defaults: the first virtual input, which is what Voicemeeter's
/// VAIO is for.
pub const DEFAULT_SINK: &'static str = "pipemeter_vaio";

/// And the source they should record from: B1, the first virtual bus.
pub const DEFAULT_SOURCE: &'static str = "pipemeter_b1";

/// One that applications play into.
pub open spec fn input(name: Seq<char>, description: Seq<char>) -> SpecText {
    SpecText { name, description, class: CLASS_INPUT@ }
}

/// One that applications record from.
pub open spec fn bus(name: Seq<char>, description: Seq<char>) -> SpecText {
    SpecText { name, description, class: CLASS_BUS@ }
}

/// The three virtual strips.
pub open spec fn inputs() -> Seq<SpecText> {
    seq![
        input("pipemeter_vaio"@, "PipeMeter VAIO"@),
        input("pipemeter_aux"@, "PipeMeter AUX"@),
        input("pipemeter_vaio3"@, "PipeMeter VAIO 3"@),
    ]
}

/// The taps on the five hardware outs.
pub open spec fn taps() -> Seq<SpecText> {
    seq![
        bus("pipemeter_a1"@, "PipeMeter Out A1"@),
        bus("pipemeter_a2"@, "PipeMeter Out A2"@),
        bus("pipemeter_a3"@, "PipeMeter Out A3"@),
        bus("pipemeter_a4"@, "PipeMeter Out A4"@),
        bus("pipemeter_a5"@, "PipeMeter Out A5"@),
    ]
}

/// The three virtual buses.
pub open spec fn buses() -> Seq<SpecText> {
    seq![
        bus("pipemeter_b1"@, "PipeMeter B1"@),
        bus("pipemeter_b2"@, "PipeMeter B2"@),
        bus("pipemeter_b3"@, "PipeMeter B3"@),
    ]
}

/// Every sink this application owns, inputs then taps then buses.
pub open spec fn specs() -> Seq<SpecText> {
    inputs() + taps() + buses()
}

/// A list of specs as the contracts see it.
pub open spec fn views(list: Seq<Spec>) -> Seq<SpecText> {
    list.map_values(|s: Spec| s@)
}

/// Whether one of the sinks has a name.
pub open spec fn owns(name: Seq<char>) -> bool {
    exists|i: int| 0 <= i < specs().len() && (#[trigger] specs()[i]).name == name
}

/// Whether the sink of a name is to be filed under another class.
pub open spec fn misfiled(name: Seq<char>, class: Seq<char>) -> bool {
    exists|i: int|
        0 <= i < specs().len() && (#[trigger] specs()[i]).name == name && specs()[i].class != class
}

/// The sinks whose names are not among those given.
pub open spec fn missing(existing: Seq<Seq<char>>) -> Seq<SpecText> {
    specs().filter(|s: SpecText| !existing.contains(s.name))
}

/// Input-side virtual sinks: the three virtual strips. Apps select these as
/// their output device, which is why the descriptions read like devices.
pub fn virtual_inputs() -> (list: Vec<Spec>)
    ensures
        views(list@) == inputs(),
{
    let list: Vec<Spec> = vec![
        Spec { name: "pipemeter_vaio", description: "PipeMeter VAIO", class: CLASS_INPUT },
        Spec { name: "pipemeter_aux", description: "PipeMeter AUX", class: CLASS_INPUT },
        Spec { name: "pipemeter_vaio3", description: "PipeMeter VAIO 3", class: CLASS_INPUT },
    ];
    proof {
        assert(views(list@) =~= inputs());
    }
    list
}

/// Taps on the five hardware outs.
///
/// Voicemeeter sells these as the "VAIO Extension": with it, A1 to A5 also
/// appear as recording devices, so a capture application can take the mix
/// going to a pair of speakers without stealing the speakers. There is no
/// licence to buy here, so they are simply always present.
///
/// Each is fed alongside its hardware out (anything routed to A1 is routed
/// here too) because the hardware device itself has no monitor we can rely
/// on: it may be an ALSA sink whose monitor carries something else, or it
/// may not be assigned at all.
pub fn hardware_taps() -> (list: Vec<Spec>)
    ensures
        views(list@) == taps(),
{
    let list: Vec<Spec> = vec![
        Spec { name: "pipemeter_a1", description: "PipeMeter Out A1", class: CLASS_BUS },
        Spec { name: "pipemeter_a2", description: "PipeMeter Out A2", class: CLASS_BUS },
        Spec { name: "pipemeter_a3", description: "PipeMeter Out A3", class: CLASS_BUS },
        Spec { name: "pipemeter_a4", description: "PipeMeter Out A4", class: CLASS_BUS },
        Spec { name: "pipemeter_a5", description: "PipeMeter Out A5", class: CLASS_BUS },
    ];
    proof {
        assert(views(list@) =~= taps());
    }
    list
}

/// Output-side virtual devices: buses B1-B3.
pub fn virtual_buses() -> (list: Vec<Spec>)
    ensures
        views(list@) == buses(),
{
    let list: Vec<Spec> = vec![
        Spec { name: "pipemeter_b1", description: "PipeMeter B1", class: CLASS_BUS },
        Spec { name: "pipemeter_b2", description: "PipeMeter B2", class: CLASS_BUS },
        Spec { name: "pipemeter_b3", description: "PipeMeter B3", class: CLASS_BUS },
    ];
    proof {
        assert(views(list@) =~= buses());
    }
    list
}

/// Every sink this application owns, inputs then buses.
pub fn all_specs() -> (list: Vec<Spec>)
    ensures
        views(list@) == specs(),
{
    let mut list = virtual_inputs();
    let mut taps = hardware_taps();
    let mut buses = virtual_buses();
    let ghost a = list@;
    let ghost b = taps@;
    let ghost c = buses@;
    list.append(&mut taps);
    list.append(&mut buses);
    proof {
        assert(views(list@) =~= views(a) + views(b) + views(c));
    }
    list
}

/// The sinks to be made: those that are not already present.
///
/// `existing` is the node names the registry already knows about, so a
/// second run adopts the previous run's devices instead of duplicating them.
pub fn create_missing(existing: &Vec<String>) -> (list: Vec<Spec>)
    ensures
        views(list@) == missing(text::texts(existing@)),
{
    let all = all_specs();
    let ghost names = text::texts(existing@);
    let ghost keep = |s: SpecText| !names.contains(s.name);
    let mut list: Vec<Spec> = Vec::new();
    proof {
        lists::filter_none(specs(), keep);
        assert(views(list@) =~= Seq::empty());
        assert(all@.len() == views(all@).len());
    }
    for i in 0..all.len()
        invariant
            names == text::texts(existing@),
            keep == (|s: SpecText| !names.contains(s.name)),
            views(all@) == specs(),
            all@.len() == specs().len(),
            views(list@) == specs().take(i as int).filter(keep),
    {
        let spec = all[i];
        let ghost so_far = views(list@);
        if !text::lists(existing, spec.name) {
            list.push(spec);
            proof {
                assert(views(list@) =~= so_far.push(spec@));
            }
        }
        proof {
            assert(specs()[i as int] == spec@);
            lists::filter_step(specs(), i as int, keep);
        }
    }
    proof {
        assert(specs().take(specs().len() as int) =~= specs());
    }
    list
}

/// The capture tap for a bus, if it has one. Only the five hardware outs do;
/// the B buses are already capture devices in their own right.
#[must_use]
pub fn tap_for(bus: usize) -> (name: Option<&'static str>)
    ensures
        match name {
            Some(n) => bus < taps().len() && n@ == taps()[bus as int].name,
            None => bus >= taps().len(),
        },
{
    let list = hardware_taps();
    proof {
        assert(list@.len() == views(list@).len());
    }
    if bus < list.len() {
        proof {
            assert(views(list@)[bus as int] == list@[bus as int]@);
        }
        Some(list[bus].name)
    } else {
        None
    }
}

/// Whether one of our devices was created with the wrong class.
///
/// A bus from a build that filed it elsewhere still works for routing but is
/// not where the desktop should show it, so it is replaced rather than
/// adopted.
#[must_use]
pub fn wrong_class(name: &str, class: &str) -> (r: bool)
    ensures
        r == misfiled(name@, class@),
{
    let all = all_specs();
    proof {
        assert(all@.len() == views(all@).len());
    }
    for i in 0..all.len()
        invariant
            views(all@) == specs(),
            all@.len() == specs().len(),
            forall|j: int|
                0 <= j < i ==> !((#[trigger] specs()[j]).name == name@ && specs()[j].class
                    != class@),
    {
        proof {
            assert(specs()[i as int] == all@[i as int]@);
        }
        if text::same(all[i].name, name) && !text::same(all[i].class, class) {
            return true;
        }
    }
    false
}

/// Whether a node is one this library created. Used to keep our own sinks
/// out of the device lists offered for hardware assignment: you should not
/// be able to route a strip's output back into its own input.
#[must_use]
pub fn is_ours(name: &str) -> (r: bool)
    ensures
        r == owns(name@),
{
    let all = all_specs();
    proof {
        assert(all@.len() == views(all@).len());
    }
    for i in 0..all.len()
        invariant
            views(all@) == specs(),
            all@.len() == specs().len(),
            forall|j: int| 0 <= j < i ==> (#[trigger] specs()[j]).name != name@,
    {
        proof {
            assert(specs()[i as int] == all@[i as int]@);
        }
        if text::same(all[i].name, name) {
            return true;
        }
    }
    false
}

/// How a sink is asked for.
pub open spec fn sink_properties(spec: SpecText) -> Seq<(Seq<char>, Seq<char>)> {
    seq![
        ("factory.name"@, "support.null-audio-sink"@),
        ("node.name"@, spec.name),
        ("node.description"@, spec.description),
        ("media.class"@, spec.class),
        ("object.linger"@, "1"@),
        ("audio.position"@, "FL,FR"@),
        ("node.always-process"@, "true"@),
        ("monitor.channel-volumes"@, "true"@),
        ("priority.session"@, "100"@),
        ("priority.driver"@, "100"@),
    ]
}

impl Spec {
    /// What the null sink is to be made with.
    pub fn properties(&self) -> (list: Vec<(String, String)>)
        ensures
            props::pairs(list@) == sink_properties(self@),
    {
        let mut list = props::none();
        props::put(&mut list, "factory.name", "support.null-audio-sink");
        props::put(&mut list, "node.name", self.name);
        props::put(&mut list, "node.description", self.description);
        props::put(&mut list, "media.class", self.class);
        props::put(&mut list, "object.linger", "1");
        props::put(&mut list, "audio.position", "FL,FR");
        props::put(&mut list, "node.always-process", "true");
        props::put(&mut list, "monitor.channel-volumes", "true");
        props::put(&mut list, "priority.session", "100");
        props::put(&mut list, "priority.driver", "100");
        proof {
            assert(props::pairs(list@) =~= sink_properties(self@));
        }
        list
    }
}

// ---------------------------------------------------------------------
// Laws

/// The names of a list of sinks.
pub open spec fn names(list: Seq<SpecText>) -> Seq<Seq<char>> {
    list.map_values(|s: SpecText| s.name)
}

/// No two sinks share a name.
pub proof fn names_are_unique()
    ensures
        names(specs()).no_duplicates(),
{
    reveal_strlit("pipemeter_vaio");
    reveal_strlit("pipemeter_aux");
    reveal_strlit("pipemeter_vaio3");
    reveal_strlit("pipemeter_a1");
    reveal_strlit("pipemeter_a2");
    reveal_strlit("pipemeter_a3");
    reveal_strlit("pipemeter_a4");
    reveal_strlit("pipemeter_a5");
    reveal_strlit("pipemeter_b1");
    reveal_strlit("pipemeter_b2");
    reveal_strlit("pipemeter_b3");
    let all = names(specs());
    let key = |s: Seq<char>| (s.len(), s[10], s[11]);
    assert(all.len() == 11);
    assert forall|i: int, j: int| 0 <= i < all.len() && 0 <= j < all.len() && i != j implies all[i]
        != all[j] by {
        assert(key(all[i]) != key(all[j]));
    }
}

/// What was missing and has been made is not missing any more: running
/// twice makes no second set.
pub proof fn a_second_run_makes_nothing(existing: Seq<Seq<char>>)
    ensures
        missing(existing + names(missing(existing))).len() == 0,
{
    let made = missing(existing);
    let now = existing + names(made);
    let keep = |s: SpecText| !existing.contains(s.name);
    let again = |s: SpecText| !now.contains(s.name);
    if missing(now).len() > 0 {
        let s = missing(now)[0];
        assert(missing(now).contains(s));
        lists::filter_contains(specs(), again, s);
        if existing.contains(s.name) {
            let k = existing.index_of(s.name);
            assert(now[k] == s.name);
        } else {
            lists::filter_contains(specs(), keep, s);
            let k = made.index_of(s);
            assert(now[existing.len() + k] == s.name);
        }
    }
}

/// Where nothing is there yet, everything is missing.
pub proof fn a_first_run_makes_all()
    ensures
        missing(Seq::empty()) == specs(),
{
    lists::all_kept(specs(), |s: SpecText| !Seq::<Seq<char>>::empty().contains(s.name));
}

/// There are three strips to play into, a tap for each of five hardware
/// buses and three buses to record from, in that order, and all of them are
/// filed as sinks.
pub proof fn these_are_our_devices(i: int)
    ensures
        names(inputs()) == seq!["pipemeter_vaio"@, "pipemeter_aux"@, "pipemeter_vaio3"@],
        names(taps()) == seq![
            "pipemeter_a1"@,
            "pipemeter_a2"@,
            "pipemeter_a3"@,
            "pipemeter_a4"@,
            "pipemeter_a5"@,
        ],
        names(buses()) == seq!["pipemeter_b1"@, "pipemeter_b2"@, "pipemeter_b3"@],
        specs() == inputs() + taps() + buses(),
        0 <= i < 11 ==> specs()[i].class == "Audio/Sink"@,
        specs()[0].description == "PipeMeter VAIO"@,
        specs()[1].description == "PipeMeter AUX"@,
        specs()[2].description == "PipeMeter VAIO 3"@,
        0 <= i < 5 ==> taps()[i].description == "PipeMeter Out A"@ + text::decimal((i + 1) as nat),
        0 <= i < 5 ==> taps()[i].name == "pipemeter_a"@ + text::decimal((i + 1) as nat),
        0 <= i < 3 ==> buses()[i].description == "PipeMeter B"@ + text::decimal((i + 1) as nat),
        0 <= i < 3 ==> buses()[i].name == "pipemeter_b"@ + text::decimal((i + 1) as nat),
{
    assert(names(inputs()) =~= seq!["pipemeter_vaio"@, "pipemeter_aux"@, "pipemeter_vaio3"@]);
    assert(names(taps()) =~= seq![
        "pipemeter_a1"@,
        "pipemeter_a2"@,
        "pipemeter_a3"@,
        "pipemeter_a4"@,
        "pipemeter_a5"@,
    ]);
    assert(names(buses()) =~= seq!["pipemeter_b1"@, "pipemeter_b2"@, "pipemeter_b3"@]);
    reveal_with_fuel(text::decimal, 1);
    taps_are_numbered();
    buses_are_numbered();
}

/// The taps are numbered from one.
proof fn taps_are_numbered()
    ensures
        "pipemeter_a1"@ == "pipemeter_a"@ + text::decimal(1),
        "pipemeter_a2"@ == "pipemeter_a"@ + text::decimal(2),
        "pipemeter_a3"@ == "pipemeter_a"@ + text::decimal(3),
        "pipemeter_a4"@ == "pipemeter_a"@ + text::decimal(4),
        "pipemeter_a5"@ == "pipemeter_a"@ + text::decimal(5),
        "PipeMeter Out A1"@ == "PipeMeter Out A"@ + text::decimal(1),
        "PipeMeter Out A2"@ == "PipeMeter Out A"@ + text::decimal(2),
        "PipeMeter Out A3"@ == "PipeMeter Out A"@ + text::decimal(3),
        "PipeMeter Out A4"@ == "PipeMeter Out A"@ + text::decimal(4),
        "PipeMeter Out A5"@ == "PipeMeter Out A"@ + text::decimal(5),
{
    reveal_with_fuel(text::decimal, 1);
    reveal_strlit("pipemeter_a");
    reveal_strlit("pipemeter_a1");
    reveal_strlit("pipemeter_a2");
    reveal_strlit("pipemeter_a3");
    reveal_strlit("pipemeter_a4");
    reveal_strlit("pipemeter_a5");
    reveal_strlit("PipeMeter Out A");
    reveal_strlit("PipeMeter Out A1");
    reveal_strlit("PipeMeter Out A2");
    reveal_strlit("PipeMeter Out A3");
    reveal_strlit("PipeMeter Out A4");
    reveal_strlit("PipeMeter Out A5");
    assert("pipemeter_a1"@ =~= "pipemeter_a"@ + text::decimal(1));
    assert("pipemeter_a2"@ =~= "pipemeter_a"@ + text::decimal(2));
    assert("pipemeter_a3"@ =~= "pipemeter_a"@ + text::decimal(3));
    assert("pipemeter_a4"@ =~= "pipemeter_a"@ + text::decimal(4));
    assert("pipemeter_a5"@ =~= "pipemeter_a"@ + text::decimal(5));
    assert("PipeMeter Out A1"@ =~= "PipeMeter Out A"@ + text::decimal(1));
    assert("PipeMeter Out A2"@ =~= "PipeMeter Out A"@ + text::decimal(2));
    assert("PipeMeter Out A3"@ =~= "PipeMeter Out A"@ + text::decimal(3));
    assert("PipeMeter Out A4"@ =~= "PipeMeter Out A"@ + text::decimal(4));
    assert("PipeMeter Out A5"@ =~= "PipeMeter Out A"@ + text::decimal(5));
}

/// The buses are numbered from one.
proof fn buses_are_numbered()
    ensures
        "pipemeter_b1"@ == "pipemeter_b"@ + text::decimal(1),
        "pipemeter_b2"@ == "pipemeter_b"@ + text::decimal(2),
        "pipemeter_b3"@ == "pipemeter_b"@ + text::decimal(3),
        "PipeMeter B1"@ == "PipeMeter B"@ + text::decimal(1),
        "PipeMeter B2"@ == "PipeMeter B"@ + text::decimal(2),
        "PipeMeter B3"@ == "PipeMeter B"@ + text::decimal(3),
{
    reveal_with_fuel(text::decimal, 1);
    reveal_strlit("pipemeter_b");
    reveal_strlit("pipemeter_b1");
    reveal_strlit("pipemeter_b2");
    reveal_strlit("pipemeter_b3");
    reveal_strlit("PipeMeter B");
    reveal_strlit("PipeMeter B1");
    reveal_strlit("PipeMeter B2");
    reveal_strlit("PipeMeter B3");
    assert("pipemeter_b1"@ =~= "pipemeter_b"@ + text::decimal(1));
    assert("pipemeter_b2"@ =~= "pipemeter_b"@ + text::decimal(2));
    assert("pipemeter_b3"@ =~= "pipemeter_b"@ + text::decimal(3));
    assert("PipeMeter B1"@ =~= "PipeMeter B"@ + text::decimal(1));
    assert("PipeMeter B2"@ =~= "PipeMeter B"@ + text::decimal(2));
    assert("PipeMeter B3"@ =~= "PipeMeter B"@ + text::decimal(3));
}

/// What is made is exactly what is ours and not there yet.
pub proof fn only_what_is_missing_is_made(existing: Seq<Seq<char>>, s: SpecText)
    ensures
        missing(existing).contains(s) == (specs().contains(s) && !existing.contains(s.name)),
        missing(existing).len() <= 11,
{
    lists::filter_contains(specs(), |x: SpecText| !existing.contains(x.name), s);
    kept_are_no_more(specs(), |x: SpecText| !existing.contains(x.name));
}

/// Leaving some out leaves no more.
proof fn kept_are_no_more(list: Seq<SpecText>, keep: spec_fn(SpecText) -> bool)
    ensures
        list.filter(keep).len() <= list.len(),
    decreases list.len(),
{
    reveal(Seq::filter);
    if list.len() > 0 {
        kept_are_no_more(list.drop_last(), keep);
    }
}

/// A node is ours exactly where it has the name of one of ours, and filed
/// wrongly exactly where it is ours and of another class than a sink.
pub proof fn ours_are_filed_as_sinks(name: Seq<char>, class: Seq<char>)
    ensures
        owns(name) == names(specs()).contains(name),
        misfiled(name, class) == (names(specs()).contains(name) && class != "Audio/Sink"@),
{
    let all = names(specs());
    these_are_our_devices(0);
    assert forall|i: int| 0 <= i < specs().len() implies (#[trigger] specs()[i]).class
        == "Audio/Sink"@ by {
        these_are_our_devices(i);
    }
    assert(specs().len() == 11);
    if all.contains(name) {
        let i = all.index_of(name);
        assert(specs()[i].name == name);
    }
    if owns(name) {
        let i = choose|i: int| 0 <= i < specs().len() && (#[trigger] specs()[i]).name == name;
        assert(all[i] == name);
    }
    if misfiled(name, class) {
        let i = choose|i: int|
            0 <= i < specs().len() && (#[trigger] specs()[i]).name == name && specs()[i].class
                != class;
        assert(all[i] == name);
    }
}

/// A device of ours is made as a sink that stays when we go, runs all the
/// time, carries two channels and lets its monitor be turned, under its own
/// name, title and class, and is nobody's first choice.
pub proof fn a_device_is_made_to_stay(spec: SpecText)
    ensures
        ({
            let list = sink_properties(spec);
            &&& props::value_of(list, "factory.name"@) == Some("support.null-audio-sink"@)
            &&& props::value_of(list, "node.name"@) == Some(spec.name)
            &&& props::value_of(list, "node.description"@) == Some(spec.description)
            &&& props::value_of(list, "media.class"@) == Some(spec.class)
            &&& props::value_of(list, "object.linger"@) == Some("1"@)
            &&& props::value_of(list, "audio.position"@) == Some("FL,FR"@)
            &&& props::value_of(list, "node.always-process"@) == Some("true"@)
            &&& props::value_of(list, "monitor.channel-volumes"@) == Some("true"@)
            &&& props::value_of(list, "priority.session"@) == Some("100"@)
            &&& props::value_of(list, "priority.driver"@) == Some("100"@)
        }),
{
    let list = sink_properties(spec);
    reveal_strlit("factory.name");
    reveal_strlit("node.name");
    reveal_strlit("node.description");
    reveal_strlit("media.class");
    reveal_strlit("object.linger");
    reveal_strlit("audio.position");
    reveal_strlit("node.always-process");
    reveal_strlit("monitor.channel-volumes");
    reveal_strlit("priority.session");
    reveal_strlit("priority.driver");
    assert("factory.name"@.len() == 12 && "node.name"@.len() == 9);
    assert("node.description"@.len() == 16 && "media.class"@.len() == 11);
    assert("object.linger"@.len() == 13 && "audio.position"@.len() == 14);
    assert("node.always-process"@.len() == 19 && "monitor.channel-volumes"@.len() == 23);
    assert("priority.session"@.len() == 16 && "priority.driver"@.len() == 15);
    assert("priority.session"@[0] == 'p' && "node.description"@[0] == 'n');
    props::stands_first(list, 0);
    props::stands_first(list, 1);
    props::stands_first(list, 2);
    props::stands_first(list, 3);
    props::stands_first(list, 4);
    props::stands_first(list, 5);
    props::stands_first(list, 6);
    props::stands_first(list, 7);
    props::stands_first(list, 8);
    props::stands_first(list, 9);
}

/// No device of ours has the name of a chain's end.
proof fn no_device_of_ours_is_an_end(i: int)
    requires
        0 <= i < 11,
    ensures
        !super::eq::is_endpoint(specs()[i].name),
{
    reveal_strlit("pipemeter_vaio");
    reveal_strlit("pipemeter_aux");
    reveal_strlit("pipemeter_vaio3");
    reveal_strlit("pipemeter_a1");
    reveal_strlit("pipemeter_a2");
    reveal_strlit("pipemeter_a3");
    reveal_strlit("pipemeter_a4");
    reveal_strlit("pipemeter_a5");
    reveal_strlit("pipemeter_b1");
    reveal_strlit("pipemeter_b2");
    reveal_strlit("pipemeter_b3");
    reveal_strlit("input.");
    reveal_strlit("output.");
    let name = specs()[i].name;
    assert(name[0] == 'p');
    if text::begins(name, "input."@) {
        assert(name.subrange(0, 6)[0] == "input."@[0]);
    }
    if text::begins(name, "output."@) {
        assert(name.subrange(0, 7)[0] == "output."@[0]);
    }
}

/// A device of ours, once made, is seen as the sink that it is, and can be
/// assigned.
pub proof fn a_device_of_ours_is_seen_as_it_was_made(id: u32, spec: SpecText)
    requires
        specs().contains(spec),
    ensures
        ({
            let seen = super::describe::device(id, sink_properties(spec));
            &&& seen is Some
            &&& seen->Some_0.name == spec.name
            &&& seen->Some_0.description == spec.description
            &&& seen->Some_0.direction == super::nodes::Direction::Sink
            &&& seen->Some_0.assignable
        }),
{
    let i = specs().index_of(spec);
    these_are_our_devices(i);
    assert(specs().len() == 11);
    a_device_is_made_to_stay(spec);
    no_device_of_ours_is_an_end(i);
    super::describe::what_counts_as_a_device(id, sink_properties(spec), spec.name, spec.class);
    super::describe::a_device_is_shown_by_its_best_name(id, sink_properties(spec));
}

/// What is claimed as the desktop's output is our first strip, and as its
/// input our first bus, and everything of ours has the one beginning.
pub proof fn the_defaults_are_our_own(i: int)
    requires
        0 <= i < 11,
    ensures
        DEFAULT_SINK@ == specs()[0].name,
        DEFAULT_SOURCE@ == buses()[0].name,
        CLASS_INPUT@ == "Audio/Sink"@,
        CLASS_BUS@ == "Audio/Sink"@,
        PREFIX@ == "pipemeter_"@,
        text::begins(specs()[i].name, PREFIX@),
{
    reveal_strlit("pipemeter_");
    reveal_strlit("pipemeter_vaio");
    reveal_strlit("pipemeter_aux");
    reveal_strlit("pipemeter_vaio3");
    reveal_strlit("pipemeter_a1");
    reveal_strlit("pipemeter_a2");
    reveal_strlit("pipemeter_a3");
    reveal_strlit("pipemeter_a4");
    reveal_strlit("pipemeter_a5");
    reveal_strlit("pipemeter_b1");
    reveal_strlit("pipemeter_b2");
    reveal_strlit("pipemeter_b3");
    assert(specs()[i].name.subrange(0, 10) =~= "pipemeter_"@);
}

/// The first five buses have a tap each, numbered from one, and no other has.
pub proof fn a_bus_has_the_tap_of_its_number(bus: usize, name: Option<&'static str>)
    requires
        call_ensures(tap_for, (bus,), name),
    ensures
        name is Some == (bus < 5),
        name matches Some(n) ==> n@ == "pipemeter_a"@ + text::decimal((bus + 1) as nat),
{
    these_are_our_devices(bus as int);
}

} // verus!
