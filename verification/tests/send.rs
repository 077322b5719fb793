use pipemeeter_core::audio::eq::is_chain_node;
use pipemeeter_core::audio::send::{bounded, config, node_name, LEVEL};
use pipemeeter_core::single::Single;

fn written(level: f32) -> String {
    let level = bounded(Single { bits: level.to_bits() });
    format!("{}", f32::from_bits(level.bits))
}

#[test]
fn a_send_is_named_for_its_strip_and_effect() {
    assert_eq!(node_name(5, "reverb"), "pipemeter_send5_reverb");
    assert_ne!(node_name(0, "reverb"), node_name(1, "reverb"));
    assert_ne!(node_name(0, "reverb"), node_name(0, "delay"));
}

/// Stereo in, stereo out, one input in the graph - the only shape
/// measured to carry audio here. A multi-input graph passes its first
/// pair and drops the rest.
#[test]
fn the_graph_has_a_single_stereo_input() {
    let text = config("x", &written(1.0));
    assert!(text.contains("inputs  = [ \"g:In\" ]"));
    assert!(text.contains("outputs = [ \"g:Out\" ]"));
    assert_eq!(text.matches("audio.channels = 2").count(), 2);
}

#[test]
fn the_level_is_written_into_the_graph_and_bounded() {
    assert!(config("x", &written(0.5)).contains("\"Mult\" = 0.5"));
    assert!(config("x", &written(2.0)).contains("\"Mult\" = 1"));
    assert!(config("x", &written(-1.0)).contains("\"Mult\" = 0"));
}

#[test]
fn a_level_is_held_to_the_range_and_no_further() {
    assert_eq!(written(0.25), "0.25");
    assert_eq!(written(f32::INFINITY), "1");
    assert_eq!(written(f32::NEG_INFINITY), "0");
    assert_eq!(written(f32::NAN), "NaN");
    assert_eq!(written(1.0), "1");
}

#[test]
fn neither_end_is_passive_and_there_are_no_links() {
    let text = config(&node_name(2, "delay"), "0.5");
    assert_eq!(text.matches("node.passive = false").count(), 2);
    assert!(!text.contains("links"));
    assert!(text.contains("media.name = \"PipeMeter send\""));
    assert!(text.contains("node.name = \"input.pipemeter_send2_delay\""));
    assert_eq!(LEVEL, "g:Mult");
}

#[test]
fn a_send_is_recognised_as_ours() {
    let name = node_name(7, "reverb");
    assert!(is_chain_node(&format!("input.{name}")));
    assert!(is_chain_node(&format!("output.{name}")));
}
