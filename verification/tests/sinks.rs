use pipemeeter_core::audio::sinks::{
    all_specs, create_missing, hardware_taps, is_ours, tap_for, virtual_buses, virtual_inputs,
    wrong_class, DEFAULT_SINK, DEFAULT_SOURCE, PREFIX,
};

#[test]
fn recognises_own_sinks() {
    assert!(is_ours("pipemeter_vaio"));
    assert!(is_ours("pipemeter_b3"));
    assert!(!is_ours("alsa_output.usb-something.analog-stereo"));
}

#[test]
fn names_are_unique() {
    let mut names: Vec<_> = all_specs().iter().map(|s| s.name).collect();
    let count = names.len();
    names.sort_unstable();
    names.dedup();
    assert_eq!(names.len(), count);
}

#[test]
fn the_inputs_come_first_and_the_buses_last() {
    assert_eq!(virtual_inputs().len(), 3);
    assert_eq!(hardware_taps().len(), 5);
    assert_eq!(virtual_buses().len(), 3);
    let all = all_specs();
    assert_eq!(all.len(), 11);
    assert_eq!(all[0].name, DEFAULT_SINK);
    assert_eq!(all[3].description, "PipeMeter Out A1");
    assert_eq!(all[8].name, DEFAULT_SOURCE);
    assert!(all.iter().all(|s| s.name.starts_with(PREFIX)));
    assert!(all.iter().all(|s| s.class == "Audio/Sink"));
}

#[test]
fn only_the_hardware_outs_have_taps() {
    assert_eq!(tap_for(0), Some("pipemeter_a1"));
    assert_eq!(tap_for(4), Some("pipemeter_a5"));
    assert_eq!(tap_for(5), None);
}

#[test]
fn what_was_made_is_not_made_again() {
    assert_eq!(create_missing(&Vec::new()).len(), 11);
    let mut existing = vec!["pipemeter_aux".to_owned(), "something else".to_owned()];
    let made = create_missing(&existing);
    assert_eq!(made.len(), 10);
    assert!(made.iter().all(|s| s.name != "pipemeter_aux"));
    existing.extend(made.iter().map(|s| s.name.to_owned()));
    assert!(create_missing(&existing).is_empty());
}

#[test]
fn a_wrong_class_is_only_wrong_on_ours() {
    assert!(wrong_class("pipemeter_b1", "Audio/Source/Virtual"));
    assert!(!wrong_class("pipemeter_b1", "Audio/Sink"));
    assert!(!wrong_class("alsa_output.x", "Audio/Source"));
}

#[test]
fn a_sink_is_made_to_linger() {
    let list = all_specs()[0].properties();
    let value = |key: &str| {
        list.iter()
            .find(|(k, _)| k == key)
            .map(|(_, v)| v.as_str())
    };
    assert_eq!(list.len(), 10);
    assert_eq!(value("factory.name"), Some("support.null-audio-sink"));
    assert_eq!(value("node.name"), Some("pipemeter_vaio"));
    assert_eq!(value("node.description"), Some("PipeMeter VAIO"));
    assert_eq!(value("media.class"), Some("Audio/Sink"));
    assert_eq!(value("object.linger"), Some("1"));
    assert_eq!(value("priority.driver"), Some("100"));
}
