use pipemeeter_core::audio::eq::is_chain_node;
use pipemeeter_core::audio::fx::{
    config, return_control, return_pair, send_control, send_pair, Kind, BUSES, STRIPS,
};

const KINDS: [Kind; 6] = [
    Kind::Reverb,
    Kind::Delay,
    Kind::External1,
    Kind::External2,
    Kind::Return1,
    Kind::Return2,
];

/// A send declares one output pair, not one per bus. A chain whose
/// outputs outnumber its captures breaks its channel mapping and
/// passes silence, which is how every strip went quiet once.
#[test]
fn a_send_carries_a_single_output_pair() {
    let send = config(Kind::External1);
    assert!(send.contains("\"outL:Out\" \"outR:Out\""), "{send}");
    assert!(!send.contains("r0L:Out"), "a send has no per-bus returns");
    // And the returning effects still do.
    assert!(config(Kind::Reverb).contains("r0L:Out"));
}

#[test]
fn every_input_and_output_is_named_one_for_one() {
    // The whole point. A chain whose named ports do not match its
    // channel counts leaves filter-chain duplicating the graph and
    // guessing an order, and what it guesses is wrong - that is what
    // silenced every strip the first time this was attempted.
    let text = config(Kind::Reverb);
    let inputs = text
        .lines()
        .find(|l| l.trim_start().starts_with("inputs "))
        .expect("declares inputs");
    let outputs = text
        .lines()
        .find(|l| l.trim_start().starts_with("outputs "))
        .expect("declares outputs");
    assert_eq!(inputs.matches(":In").count(), STRIPS * 2);
    assert_eq!(outputs.matches(":Out").count(), BUSES * 2);
    assert!(text.contains(&format!("audio.channels = {}", STRIPS * 2)));
    assert!(text.contains(&format!("audio.channels = {}", BUSES * 2)));
}

#[test]
fn every_kind_names_its_ports_one_for_one() {
    for kind in KINDS {
        let text = config(kind);
        let outputs = text
            .lines()
            .find(|l| l.trim_start().starts_with("outputs "))
            .expect("declares outputs");
        let channels = text
            .lines()
            .filter_map(|l| l.trim_start().strip_prefix("audio.channels = "))
            .last()
            .expect("declares channels");
        let positions = text
            .lines()
            .filter_map(|l| l.trim_start().strip_prefix("audio.position = [ "))
            .last()
            .expect("declares positions");
        let count = outputs.matches(":Out").count();
        assert_eq!(channels, format!("{count}"), "{kind:?}");
        assert_eq!(
            positions.trim_end_matches(" ]").split(' ').count(),
            count,
            "{kind:?}"
        );
        assert_eq!(kind.returns_to_buses(), count == BUSES * 2);
    }
}

#[test]
fn every_send_and_return_has_a_gain_of_its_own() {
    let text = config(Kind::Reverb);
    for strip in 0..STRIPS {
        for control in send_control(strip) {
            let node = control.split(':').next().unwrap();
            assert!(
                text.contains(&format!("name = {node} label = linear")),
                "{node} is missing its gain",
            );
        }
    }
    for bus in 0..BUSES {
        for control in return_control(bus) {
            let node = control.split(':').next().unwrap();
            assert!(
                text.contains(&format!("name = {node} label = linear")),
                "{node} is missing its gain",
            );
        }
    }
}

#[test]
fn everything_starts_silent() {
    // A chain that came up sending would put every strip into the reverb
    // the moment the mixer started.
    let text = config(Kind::Reverb);
    assert_eq!(
        text.matches("\"Mult\" = 0.0").count(),
        (STRIPS + BUSES) * 2,
        "some gain does not start at zero",
    );
}

#[test]
fn the_summing_mixers_are_fixed_at_unity() {
    // They can only be set once, in the config, so this is the only
    // chance to get them right - and all they do is add.
    let text = config(Kind::Reverb);
    assert_eq!(text.matches("\"Gain 1\" = 1.0").count(), 2);
    assert_eq!(text.matches(&format!("\"Gain {STRIPS}\" = 1.0")).count(), 2);
}

#[test]
fn both_effects_reach_the_same_output_nodes() {
    // The two chains differ only in what sits between the sum and the
    // returns; everything either side is shared.
    for kind in [Kind::Reverb, Kind::Delay] {
        let text = config(kind);
        assert!(text.contains("input = \"outL:In\""), "{kind:?}");
        assert!(text.contains("input = \"outR:In\""), "{kind:?}");
        assert!(text.contains("\"sumL:Out\""), "{kind:?}");
    }
}

#[test]
fn the_two_chains_have_different_names() {
    assert_ne!(Kind::Reverb.node(), Kind::Delay.node());
    assert!(config(Kind::Delay).contains("pipemeter_delay"));
}

#[test]
fn every_effect_is_recognised_as_ours() {
    for kind in KINDS {
        assert!(is_chain_node(&format!("input.{}", kind.node())));
        assert!(is_chain_node(&format!("output.{}", kind.node())));
    }
}

#[test]
fn each_kind_says_what_it_is() {
    let presets: Vec<bool> = KINDS.iter().map(|k| k.has_preset()).collect();
    assert_eq!(presets, vec![true, true, false, false, false, false]);
    let sends: Vec<bool> = KINDS.iter().map(|k| k.takes_strip_sends()).collect();
    assert_eq!(sends, vec![true, true, true, true, false, false]);
    let returns: Vec<bool> = KINDS.iter().map(|k| k.returns_to_buses()).collect();
    assert_eq!(returns, vec![true, true, false, false, true, true]);
}

#[test]
fn a_strip_has_its_own_pair_and_its_own_control() {
    assert_eq!(send_control(3), ["s3L:Mult".to_owned(), "s3R:Mult".to_owned()]);
    assert_eq!(return_control(7), ["r7L:Mult".to_owned(), "r7R:Mult".to_owned()]);
    assert_eq!(send_pair(3), 3);
    assert_eq!(return_pair(7), 7);
}

#[test]
fn the_first_lines_of_a_send_read_like_this() {
    let text = config(Kind::External2);
    let lines: Vec<&str> = text.lines().collect();
    assert_eq!(lines[9], "      node.name = \"pipemeter_extfx2\"");
    assert_eq!(lines[10], "      node.description = \"PipeMeter FX\"");
    assert_eq!(lines[11], "      filter.graph = {");
    assert_eq!(lines[12], "        nodes = [");
    assert_eq!(
        lines[13],
        "          { type = builtin name = s0L label = linear control = { \"Mult\" = 0.0 \"Add\" = 0.0 } }"
    );
    assert!(text.contains(
        "          { type = builtin name = sumR label = mixer control = { \"Gain 1\" = 1.0 \"Gain 2\" = 1.0 \
\"Gain 3\" = 1.0 \"Gain 4\" = 1.0 \"Gain 5\" = 1.0 \"Gain 6\" = 1.0 \"Gain 7\" = 1.0 \"Gain 8\" = 1.0 } }\n\n\
\x20         { type = builtin name = outL label = copy }\n"
    ));
    assert!(text.contains("output = \"s7R:Out\" input = \"sumR:In 8\""));
    assert!(!text.contains("media.name"));
    assert_eq!(text.matches("node.passive").count(), 1);
}

#[test]
fn only_the_strips_and_buses_there_are_have_gains() {
    for kind in KINDS {
        let text = config(kind);
        let has = |control: &String| {
            let node = control.split(':').next().unwrap();
            text.contains(&format!("name = {node} label = linear"))
        };
        for index in 0..20 {
            for control in send_control(index) {
                assert_eq!(has(&control), index < STRIPS, "{control}");
            }
            for control in return_control(index) {
                assert_eq!(has(&control), index < BUSES && kind.returns_to_buses(), "{control}");
            }
        }
    }
}
