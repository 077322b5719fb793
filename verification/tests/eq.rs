use pipemeeter_core::audio::dynamics;
use pipemeeter_core::audio::eq::{
    self, config, Kind, BANDS, BUS_BANDS, BUS_CHAIN_PREFIX, BUS_FREQUENCIES,
};
use pipemeeter_core::single::Single;

fn single(value: f32) -> Single {
    Single { bits: value.to_bits() }
}

fn float(value: Single) -> f32 {
    f32::from_bits(value.bits)
}

#[test]
fn both_chain_kinds_are_recognised_at_both_ends() {
    assert!(eq::is_chain_node("input.pipemeter_vaio_eq"));
    assert!(eq::is_chain_node("output.pipemeter_vaio_eq"));
    assert!(eq::is_chain_node("input.some_device_fx"));
    assert!(eq::is_chain_node("output.some_device_fx"));
}

#[test]
fn nothing_else_is_mistaken_for_a_chain() {
    assert!(!eq::is_chain_node("pipemeter_meter"));
    assert!(!eq::is_chain_node("pipemeter_vaio"));
    assert!(!eq::is_chain_node("alsa_output.something"));
}

#[test]
fn a_name_that_is_all_prefix_is_no_chain() {
    assert!(!eq::is_chain_node(""));
    assert!(!eq::is_chain_node("input."));
    assert!(!eq::is_chain_node("output.firefox"));
    assert!(eq::is_chain_node("output.pipemeter_"));
    assert!(eq::is_chain_node("input._eq"));
}

#[test]
fn the_config_names_every_band_and_the_chain() {
    let text = config("pipemeter_vaio_eq", Kind::Equaliser, false);
    assert!(text.contains("node.name = \"pipemeter_vaio_eq\""));
    for band in BANDS {
        assert!(text.contains(&format!("name = {band}")), "missing {band}");
    }
    assert!(text.contains("bq_lowshelf"));
    assert!(text.contains("bq_peaking"));
    assert!(text.contains("bq_highshelf"));
}

#[test]
fn a_chain_declares_exactly_one_output() {
    for kind in [Kind::Equaliser, Kind::Dynamics] {
        let text = config("x", kind, true);
        let outputs = text
            .lines()
            .find(|l| l.trim_start().starts_with("outputs ="))
            .expect("the config declares its outputs");
        assert_eq!(
            outputs.matches(':').count(),
            1,
            "more than one output: {outputs}",
        );
    }
}

#[test]
fn the_playback_side_is_one_stereo_pair() {
    let text = config("x", Kind::Equaliser, false);
    assert!(text.contains("audio.channels = 2"), "{text}");
    assert!(text.contains("audio.position = [ FL FR ]"), "{text}");
}

#[test]
fn the_comp_knob_is_the_strength_directly() {
    assert!((float(dynamics::comp_strength(single(0.4))) - 0.4).abs() < f32::EPSILON);
    assert!((float(dynamics::comp_strength(single(-1.0)))).abs() < f32::EPSILON);
    assert!((float(dynamics::comp_strength(single(7.0))) - 1.0).abs() < f32::EPSILON);
}

#[test]
fn the_dynamics_graph_runs_the_gate_into_the_compressor() {
    for denoiser in [false, true] {
        let text = config("x", Kind::Dynamics, denoiser);
        assert!(text.contains("label = Noisegate"));
        assert!(text.contains("label = Compress"));
        assert!(text.contains("output = \"gmix:Out\" input = \"comp:in\""));
        // The denoiser, when installed, sits ahead of the noise gate and
        // becomes the graph's input instead.
        let head = if denoiser { "dcopy:In" } else { "gcopy:In" };
        assert!(
            text.contains(&format!("inputs  = [ \"{head}\" ]")),
            "{text}"
        );
        assert!(text.contains("outputs = [ \"lim:Out\" ]"), "{text}");
        assert!(!text.contains("bq_lowshelf"));
    }
}

#[test]
fn the_bands_are_wired_in_series_from_input_to_output() {
    let text = config("x", Kind::Equaliser, false);
    assert!(text.contains("inputs  = [ \"bass:In\" ]"));
    assert!(text.contains("outputs = [ \"lim:Out\" ]"), "{text}");
    assert!(text.contains("output = \"bass:Out\" input = \"mid:In\""));
}

#[test]
fn the_bus_eq_carries_every_cell_the_file_does() {
    let text = config("bus", Kind::BusEqualiser, false);
    for (cell, freq) in BUS_FREQUENCIES.iter().enumerate() {
        let name = eq::bus_band(cell);
        assert!(
            text.contains(&format!("name = {name} label = bq_peaking")),
            "cell {name} missing from the graph"
        );
        assert!(text.contains(&format!("\"Freq\" = {freq}")));
    }
}

#[test]
fn the_bus_eq_cells_run_in_series() {
    let text = config("bus", Kind::BusEqualiser, false);
    for cell in 0..BUS_BANDS - 1 {
        assert!(text.contains(&format!(
            "output = \"{}:Out\" input = \"{}:In\"",
            eq::bus_band(cell),
            eq::bus_band(cell + 1)
        )));
    }
}

/// A chain declaring more outputs than its capture channels breaks its
/// channel mapping and passes silence, which cost an afternoon once.
#[test]
fn the_bus_eq_is_stereo_in_and_stereo_out() {
    let text = config("bus", Kind::BusEqualiser, false);
    assert_eq!(text.matches("audio.channels = 2").count(), 2);
}

#[test]
fn a_bus_eq_control_is_addressed_by_cell() {
    assert_eq!(eq::bus_control(0, "Gain"), "cell1:Gain");
    assert_eq!(eq::bus_control(5, "Freq"), "cell6:Freq");
}

/// The graph only names the plugin when it is actually installed;
/// naming a missing one stops the chain starting at all.
#[test]
fn the_graph_mentions_the_denoiser_only_when_it_is_there() {
    for denoiser in [false, true] {
        let text = config("x", Kind::Dynamics, denoiser);
        assert_eq!(text.contains(dynamics::DENOISER_LABEL), denoiser);
    }
}

/// caps Compress defaults to a mode that attenuates even when it is
/// asked to do nothing. Leaving the mode unset cost 2.87 dB on every
/// hardware strip.
#[test]
fn the_compressor_runs_in_the_transparent_mode() {
    let text = config("x", Kind::Dynamics, false);
    assert!(text.contains("\"mode\" = 0"), "{text}");
}

#[test]
fn the_gate_at_rest_shuts_above_the_bottom_of_its_range() {
    let text = config("x", Kind::Dynamics, false);
    assert!(!text.contains("\"close (dB)\" = -80"), "{text}");
    assert!(
        text.contains("\"open (dB)\" = -60 \"attack (ms)\" = 0.0 \"close (dB)\" = -64 }"),
        "{text}"
    );
}

/// The values a chain starts with are what the knobs at rest come to.
#[test]
fn the_resting_values_are_what_the_knobs_come_to() {
    let open = 10.0f32.powf(12.0 / 20.0);
    assert_eq!(eq::LIMIT_MAX_AT_REST, format!("{open}"));
    assert_eq!(eq::LIMIT_MIN_AT_REST, format!("{}", -open));
    let dry = 10.0f32.powf(-80.0 / 20.0);
    assert_eq!(eq::GATE_DRY_AT_REST, format!("{dry}"));
    assert_eq!(eq::GATE_WET_AT_REST, format!("{}", (1.0 - dry).clamp(0.0, 1.0)));
    assert_eq!(eq::GATE_OPEN_AT_REST, format!("{}", -60.0f32));
    assert_eq!(
        eq::GATE_CLOSE_AT_REST,
        format!("{}", (-60.0f32 - 4.0).clamp(-80.0, 0.0))
    );
    assert_eq!(eq::DENOISER_DRY_AT_REST, format!("{}", 1.0f32 - 0.0));
    assert_eq!(eq::DENOISER_WET_AT_REST, format!("{}", 0.0f32));
}

#[test]
fn a_whole_equaliser_file_reads_like_this() {
    let text = config("x_eq", Kind::Equaliser, false);
    let expected = "context.properties = { log.level = 0 }
context.spa-libs = { audio.convert.* = audioconvert/libspa-audioconvert }
context.modules = [
  { name = libpipewire-module-rt }
  { name = libpipewire-module-protocol-native }
  { name = libpipewire-module-client-node }
  { name = libpipewire-module-adapter }
  { name = libpipewire-module-filter-chain
    args = {
      node.name = \"x_eq\"
      node.description = \"PipeMeter EQ\"
      media.name = \"PipeMeter EQ\"
      filter.graph = {
        nodes = [
          { type = builtin name = bass label = bq_lowshelf control = { \"Freq\" = 100 \"Q\" = 1.0 \"Gain\" = 0.0 } }
          { type = builtin name = mid label = bq_peaking control = { \"Freq\" = 1000 \"Q\" = 1.0 \"Gain\" = 0.0 } }
          { type = builtin name = treble label = bq_highshelf control = { \"Freq\" = 8000 \"Q\" = 1.0 \"Gain\" = 0.0 } }
          { type = builtin name = lim label = clamp control = { \"Min\" = -3.981072 \"Max\" = 3.981072 } }
        ]
        links = [
          { output = \"bass:Out\" input = \"mid:In\" }
          { output = \"mid:Out\"  input = \"treble:In\" }
          { output = \"treble:Out\" input = \"lim:In\" }
        ]
        inputs  = [ \"bass:In\" ]
        outputs = [ \"lim:Out\" ]
      }
      capture.props  = {
        node.name = \"input.x_eq\"
        audio.channels = 2
        audio.position = [ FL FR ]
        node.passive = true
        node.autoconnect = false
      }
      playback.props = {
        node.name = \"output.x_eq\"
        audio.channels = 2
        audio.position = [ FL FR ]
        node.passive = true
        node.autoconnect = false
      }
    }
  }
]
";
    assert_eq!(text, expected);
}

#[test]
fn the_denoiser_leads_into_the_gate() {
    let text = config("x", Kind::Dynamics, true);
    assert!(text.contains(
        "          { type = ladspa name = dn plugin = librnnoise_ladspa label = noise_suppressor_mono }\n"
    ));
    assert!(text.contains("output = \"dmix:Out\" input = \"gcopy:In\""));
    assert!(text.contains(
        "name = dmix label = mixer control = { \"Gain 1\" = 1 \"Gain 2\" = 0 }"
    ));
    assert!(text.contains("output = \"comp:out\" input = \"lim:In\""));
}

#[test]
fn a_chain_is_named_after_its_sink() {
    assert_eq!(eq::chain_name("pipemeter_vaio", Kind::Equaliser), "pipemeter_vaio_eq");
    assert_eq!(eq::chain_name("alsa_in", Kind::Dynamics), "alsa_in_fx");
    let bus = format!("{BUS_CHAIN_PREFIX}3");
    assert_eq!(eq::chain_name(&bus, Kind::BusEqualiser), "pipemeter_bus3_buseq");
    for kind in [Kind::Equaliser, Kind::Dynamics] {
        let name = eq::chain_name("anything", kind);
        assert!(eq::is_chain_node(&format!("input.{name}")));
        assert!(eq::is_chain_node(&format!("output.{name}")));
    }
}

#[test]
fn the_files_live_in_the_runtime_directory() {
    let dir = eq::config_dir(Some("/run/user/1000"), "/tmp");
    assert_eq!(dir, "/run/user/1000/pipemeter");
    assert_eq!(eq::config_dir(None, "/tmp"), "/tmp/pipemeter");
    assert_eq!(eq::config_path(&dir, "x_eq"), "/run/user/1000/pipemeter/x_eq.conf");
}

#[test]
fn only_a_helper_of_ours_is_left_over() {
    let dir = "/run/user/1000/pipemeter";
    let ours = "pipewire\0-c\0/run/user/1000/pipemeter/x_eq.conf\0";
    assert_eq!(eq::leftover("1234", ours, dir), Some(1234));
    assert_eq!(eq::leftover("self", ours, dir), None);
    assert_eq!(eq::leftover("1234", "pipewire\0-c\0/etc/x.conf\0", dir), None);
    assert_eq!(eq::leftover("1234", "ls\0/run/user/1000/pipemeter\0", dir), None);
    assert_eq!(eq::leftover("99999999999", ours, dir), None);
}

#[test]
fn the_denoiser_is_looked_for_in_every_place() {
    let paths = dynamics::denoiser_search_paths("/a::/b", "/home/me");
    assert_eq!(
        paths,
        vec!["/a", "/b", "/home/me/.ladspa", "/usr/lib64/ladspa", "/usr/lib/ladspa"]
    );
    assert_eq!(dynamics::denoiser_search_paths("", "").len(), 3);
    assert_eq!(
        dynamics::denoiser_files("", "/h")[0],
        "/h/.ladspa/librnnoise_ladspa.so"
    );
    assert_eq!(
        dynamics::ladspa_path("/a", "/h"),
        "/a:/h/.ladspa:/usr/lib64/ladspa:/usr/lib/ladspa"
    );
    assert!(dynamics::denoiser_available(&vec![false, true]));
    assert!(!dynamics::denoiser_available(&vec![false, false]));
}
