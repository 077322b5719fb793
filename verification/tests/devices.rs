use pipemeeter_core::audio::Direction;
use pipemeeter_core::devices::{picker_order, Known, Registry};

fn populated() -> Registry {
    let mut registry = Registry::default();
    registry.remember("alsa_output.hdmi", "HDMI Audio", Direction::Sink);
    registry.remember("alsa_input.mic", "Headset Microphone", Direction::Source);
    registry.remember("bluez.headset", "WH-1000XM4", Direction::Sink);
    registry
}

#[test]
fn a_device_survives_being_unplugged() {
    let mut registry = populated();
    registry.mark_all_absent();
    assert!(!registry.is_present("bluez.headset"));
    assert_eq!(
        registry.description_of("bluez.headset"),
        Some("WH-1000XM4"),
        "an unplugged device should still have a name",
    );
}

#[test]
fn it_comes_back_present_when_it_comes_back() {
    let mut registry = populated();
    registry.mark_all_absent();
    registry.remember("bluez.headset", "WH-1000XM4", Direction::Sink);
    assert!(registry.is_present("bluez.headset"));
}

#[test]
fn the_present_ones_are_listed_first() {
    let mut registry = populated();
    registry.mark_all_absent();
    registry.remember("bluez.headset", "WH-1000XM4", Direction::Sink);
    let sinks = registry.of(Direction::Sink);
    assert_eq!(sinks[0].name, "bluez.headset", "the plugged-in one leads");
    assert!(!sinks[1].present);
}

#[test]
fn directions_do_not_mix() {
    let registry = populated();
    assert_eq!(registry.of(Direction::Source).len(), 1);
    assert_eq!(registry.of(Direction::Sink).len(), 2);
}

#[test]
fn a_better_description_replaces_a_worse_one() {
    let mut registry = Registry::default();
    registry.remember("x", "x", Direction::Sink);
    assert!(registry.remember("x", "Proper Name", Direction::Sink));
    assert_eq!(registry.description_of("x"), Some("Proper Name"));
}

#[test]
fn seeing_the_same_device_twice_is_not_a_change() {
    let mut registry = Registry::default();
    assert!(registry.remember("x", "X", Direction::Sink));
    assert!(!registry.remember("x", "X", Direction::Sink));
}

/// What loading the settings file does: names without presence.
#[test]
fn a_remembered_device_starts_out_absent() {
    let mut registry = Registry::default();
    registry.remember_absent("alsa_input.mic", "Headset Microphone", Direction::Source);
    assert_eq!(
        registry.description_of("alsa_input.mic"),
        Some("Headset Microphone")
    );
    assert!(!registry.is_present("alsa_input.mic"));
    assert_eq!(registry.of(Direction::Source).len(), 1);
}

#[test]
fn everything_remembered_can_be_listed_for_writing() {
    let registry = populated();
    assert_eq!(registry.all().len(), 3);
}

#[test]
fn forgetting_the_absent_spares_what_is_plugged_in() {
    let mut registry = populated();
    registry.mark_all_absent();
    registry.remember("alsa_output.hdmi", "HDMI Audio", Direction::Sink);
    assert_eq!(registry.forget_absent(), 2);
    assert_eq!(registry.len(), 1);
    assert!(registry.is_present("alsa_output.hdmi"));
}

#[test]
fn forgetting_the_absent_when_all_are_here_removes_nothing() {
    let mut registry = populated();
    assert_eq!(registry.forget_absent(), 0);
    assert_eq!(registry.len(), 3);
}

#[test]
fn forgetting_removes_it() {
    let mut registry = populated();
    registry.forget("bluez.headset");
    assert_eq!(registry.description_of("bluez.headset"), None);
}

#[test]
fn an_empty_description_does_not_replace_a_good_one() {
    let mut registry = populated();
    registry.mark_all_absent();
    assert!(!registry.remember("bluez.headset", "", Direction::Sink));
    assert_eq!(registry.description_of("bluez.headset"), Some("WH-1000XM4"));
    assert!(registry.is_present("bluez.headset"));
    // The direction is what it was first seen with.
    registry.remember("bluez.headset", "", Direction::Source);
    assert_eq!(registry.of(Direction::Sink).len(), 2);
}

#[test]
fn they_are_stored_by_name() {
    let registry = populated();
    let names: Vec<&str> = registry.all().iter().map(|k| k.name.as_str()).collect();
    assert_eq!(names, vec!["alsa_input.mic", "alsa_output.hdmi", "bluez.headset"]);
}

#[test]
fn the_picker_does_not_mind_case() {
    let mut registry = Registry::default();
    registry.remember("1", "Zebra", Direction::Sink);
    registry.remember("2", "apple", Direction::Sink);
    registry.remember("3", "\u{c4}pfel", Direction::Sink);
    registry.remember("4", "APPLE", Direction::Sink);
    let shown: Vec<&str> = registry
        .of(Direction::Sink)
        .iter()
        .map(|k| k.name.as_str())
        .collect();
    assert_eq!(shown, vec!["2", "4", "1", "3"]);
}

#[test]
fn the_picker_goes_by_what_it_is_given() {
    let known = |name: &str, present| Known {
        name: name.to_owned(),
        description: name.to_owned(),
        direction: Direction::Sink,
        present,
    };
    let (a, b, c) = (known("a", false), known("b", true), known("c", true));
    let list = vec![&a, &b, &c];
    let lowered = vec!["1".to_owned(), "3".to_owned(), "2".to_owned()];
    let shown: Vec<&str> = picker_order(&list, &lowered)
        .iter()
        .map(|k| k.name.as_str())
        .collect();
    assert_eq!(shown, vec!["c", "b", "a"]);
}

#[test]
fn the_absent_are_listed_before_they_go() {
    let mut registry = populated();
    registry.mark_all_absent();
    registry.remember("alsa_output.hdmi", "HDMI Audio", Direction::Sink);
    let names: Vec<String> = registry.absent().iter().map(|k| k.name.clone()).collect();
    assert_eq!(names, vec!["alsa_input.mic", "bluez.headset"]);
    assert_eq!(registry.forget_absent(), names.len());
    assert!(registry.absent().is_empty());
}

#[test]
fn a_first_run_remembers_nothing() {
    let mut registry = Registry::default();
    assert!(registry.is_empty());
    assert_eq!(registry.len(), 0);
    registry.forget("nothing");
    assert!(!registry.is_present("nothing"));
    registry.remember_absent("x", "X", Direction::Sink);
    assert!(!registry.is_empty());
    // Reading it again replaces it.
    registry.remember("x", "X", Direction::Sink);
    registry.remember_absent("x", "Y", Direction::Source);
    assert_eq!(registry.len(), 1);
    assert_eq!(registry.description_of("x"), Some("Y"));
    assert!(!registry.is_present("x"));
}
