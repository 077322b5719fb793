use pipemeeter_core::audio::meters::Levels;
use pipemeeter_core::audio::nodes::Kind;
use pipemeeter_core::audio::{
    amplitude_of, channels_of, rate_of, Backend, Command, Device, Direction, End, Event, LinkInfo,
    Route, Stream, Tap,
};
use pipemeeter_core::single::Single;

fn single(value: f32) -> Single {
    Single { bits: value.to_bits() }
}

fn float(value: Single) -> f32 {
    f32::from_bits(value.bits)
}

fn device(id: u32, name: &str, description: &str, direction: Direction) -> Device {
    Device {
        id,
        name: name.to_owned(),
        description: description.to_owned(),
        direction,
        class: "Audio/Sink".to_owned(),
        rate: None,
        channels: None,
        assignable: true,
        kind: Kind::Physical,
    }
}

fn stream(id: u32, name: &str) -> Stream {
    Stream {
        id,
        name: name.to_owned(),
        node_name: name.to_owned(),
    }
}

fn link(id: u32, output_node: u32, input_node: u32) -> LinkInfo {
    LinkInfo {
        id,
        output_node,
        input_node,
    }
}

fn populated() -> Backend {
    let mut backend = Backend::new();
    backend.poll(
        vec![
            Event::Added(device(1, "alsa_output.x", "Speakers", Direction::Sink)),
            Event::Added(device(2, "pipemeter_vaio", "PipeMeter VAIO", Direction::Sink)),
            Event::Added(device(3, "alsa_input.mic", "Mic", Direction::Source)),
            Event::StreamAdded(stream(10, "Firefox")),
            Event::StreamAdded(stream(11, "mpv")),
            Event::LinkAdded(link(20, 10, 2)),
            Event::LinkAdded(link(21, 10, 2)),
            Event::LinkAdded(link(22, 2, 1)),
        ],
        false,
    );
    backend
}

#[test]
fn mute_wins_over_the_fader() {
    let fader = |db: f32| single(10.0_f32.powf(db / 20.0));
    assert!(float(amplitude_of(fader(12.0), true)).abs() < f32::EPSILON);
    assert!(float(amplitude_of(fader(-60.0), true)).abs() < f32::EPSILON);
    assert_eq!(amplitude_of(fader(12.0), false), fader(12.0));
}

#[test]
fn what_a_node_does_not_say_is_a_dash() {
    assert_eq!(rate_of(Some(48_000)), "48000 Hz");
    assert_eq!(rate_of(None), "-");
    assert_eq!(channels_of(Some(2)), "2 ch");
    assert_eq!(channels_of(None), "-");
}

#[test]
fn devices_are_listed_by_description() {
    let backend = populated();
    let names: Vec<&str> = backend
        .devices(Direction::Sink)
        .iter()
        .map(|d| d.description.as_str())
        .collect();
    assert_eq!(names, vec!["PipeMeter VAIO", "Speakers"]);
    assert_eq!(backend.device_count(), 3);
    assert_eq!(backend.id_of("alsa_input.mic"), Some(3));
    assert_eq!(backend.id_of("gone"), None);
}

#[test]
fn our_own_are_not_offered() {
    let backend = populated();
    let names: Vec<&str> = backend
        .assignable(Direction::Sink)
        .iter()
        .map(|d| d.name.as_str())
        .collect();
    assert_eq!(names, vec!["alsa_output.x"]);
    assert_eq!(backend.assignable(Direction::Source).len(), 1);
}

#[test]
fn an_announcement_replaces_and_a_removal_removes() {
    let mut backend = populated();
    backend.poll(
        vec![
            Event::Added(device(1, "alsa_output.x", "Better Speakers", Direction::Sink)),
            Event::StreamAdded(stream(10, "Chromium")),
            Event::LinkAdded(link(20, 11, 2)),
        ],
        false,
    );
    assert_eq!(backend.device_count(), 3);
    assert_eq!(backend.devices(Direction::Sink)[0].description, "Better Speakers");
    assert_eq!(backend.apps_playing_into("pipemeter_vaio")[0].name, "Chromium");
    backend.poll(vec![Event::Removed(1), Event::Removed(20), Event::Removed(99)], false);
    assert_eq!(backend.device_count(), 2);
    assert_eq!(backend.links_from(10), 1);
    assert_eq!(backend.links_into(2), 1);
    backend.poll(vec![Event::Removed(10)], false);
    assert!(backend.apps_playing_into("pipemeter_vaio").is_empty());
}

#[test]
fn an_application_is_listed_once_however_many_links_it_has() {
    let backend = populated();
    let apps = backend.apps_playing_into("pipemeter_vaio");
    assert_eq!(apps.len(), 1);
    assert_eq!(apps[0].id, 10);
    assert!(backend.apps_playing_into("nowhere").is_empty());
    assert_eq!(backend.links_into(2), 2);
    assert_eq!(backend.links_from(2), 1);
}

#[test]
fn a_format_fills_in_what_it_knows() {
    let mut backend = populated();
    let format = |rate, channels| Event::Format {
        id: 3,
        rate,
        channels,
    };
    backend.poll(vec![format(Some(44_100), Some(1))], false);
    backend.poll(vec![format(None, Some(2))], false);
    let mic = backend.devices(Direction::Source)[0];
    assert_eq!((mic.rate, mic.channels), (Some(44_100), Some(2)));
    assert_eq!(mic.description, "Mic");
}

#[test]
fn a_dropped_connection_leaves_the_picture_standing() {
    let mut backend = populated();
    assert!(backend.connected());
    backend.poll(vec![Event::Disconnected("gone".to_owned())], false);
    assert!(!backend.connected());
    assert_eq!(backend.device_count(), 3);
    backend.reconnect();
    assert!(backend.connected());
    assert!(!backend.enumerated());
    assert_eq!(backend.device_count(), 0);
    backend.poll(Vec::new(), true);
    assert!(!backend.connected());
}

#[test]
fn the_graph_is_logged_when_the_sweep_is_over() {
    let mut backend = populated();
    let lines = backend.poll(
        vec![
            Event::Format {
                id: 1,
                rate: Some(48_000),
                channels: Some(2),
            },
            Event::Enumerated,
            Event::Removed(11),
        ],
        false,
    );
    assert!(backend.enumerated());
    assert_eq!(
        lines,
        vec![
            "--- graph at startup: 3 devices ---",
            "  source     3          -     -  alsa_input.mic  [Mic]",
            "  sink       1   48000 Hz  2 ch  alsa_output.x  [Speakers]",
            "  sink       2          -     -  pipemeter_vaio  [PipeMeter VAIO]",
            "--- 2 application streams, 3 links ---",
            "  stream    10  Firefox",
            "  stream    11  mpv",
            "  link  10 -> pipemeter_vaio",
            "  link  10 -> pipemeter_vaio",
            "  link  pipemeter_vaio -> alsa_output.x",
        ]
    );
    assert!(backend.poll(Vec::new(), false).is_empty());
    assert_eq!(backend.dump_graph().len(), 9);
}

#[test]
fn a_level_is_silence_until_it_is_metered() {
    let backend = populated();
    let mut levels = Levels::new();
    levels.insert(3, (single(0.5), single(0.25)));
    let (l, r) = backend.level_of(&levels, "alsa_input.mic");
    assert_eq!((float(l), float(r)), (0.5, 0.25));
    let (l, r) = backend.level_of(&levels, "alsa_output.x");
    assert_eq!((float(l), float(r)), (0.0, 0.0));
    assert_eq!(backend.level_of(&levels, "gone"), (single(0.0), single(0.0)));
    assert_eq!(backend.level_of_id(&levels, 3).0, single(0.5));
}

#[test]
fn an_unknown_node_is_asked_nothing() {
    let backend = populated();
    let unity = (single(1.0), single(1.0));
    assert!(backend.set_gain("gone", single(1.0), false, unity).is_none());
    assert!(backend.set_mono("gone", End::Source, true).is_none());
    assert!(backend.set_controls("gone", Vec::new()).is_none());
    let take = |name: &str| (name.to_owned(), "/tmp/x.wav".to_owned());
    assert!(backend
        .record(vec![take("alsa_input.mic"), take("gone")], 48_000)
        .is_none());
}

#[test]
fn a_known_node_is_asked_by_number() {
    let backend = populated();
    let balance = (single(1.0), single(0.5));
    match backend.set_gain("alsa_input.mic", single(0.5), true, balance) {
        Some(Command::SetVolume {
            node,
            amplitude,
            balance: asked,
        }) => {
            assert_eq!(node, 3);
            assert_eq!(amplitude, single(0.0));
            assert_eq!(asked, balance);
        }
        other => panic!("asked {other:?}"),
    }
    assert!(matches!(
        backend.set_mono("alsa_output.x", End::Target, true),
        Some(Command::SetMono {
            node: 1,
            end: End::Target,
            mono: true
        })
    ));
    match backend.set_controls("pipemeter_vaio", vec![("bass:Gain".to_owned(), single(3.0))]) {
        Some(Command::SetControls { node, controls }) => {
            assert_eq!(node, 2);
            assert_eq!(controls[0].0, "bass:Gain");
        }
        other => panic!("asked {other:?}"),
    }
}

#[test]
fn a_take_is_recorded_by_name() {
    let backend = populated();
    let takes = vec![("alsa_input.mic".to_owned(), "/tmp/x.wav".to_owned())];
    match backend.record(takes, 44_100) {
        Some(Command::Record { takes, rate }) => {
            assert_eq!(takes, vec![("alsa_input.mic".to_owned(), "/tmp/x.wav".to_owned())]);
            assert_eq!(rate, 44_100);
        }
        other => panic!("asked {other:?}"),
    }
    // No takes at all is how the deck's Stop is sent.
    assert!(matches!(
        backend.record(Vec::new(), 44_100),
        Some(Command::Record { .. })
    ));
}

#[test]
fn an_application_keeps_its_level_through_a_mute() {
    let commands = Backend::new().set_app(10, single(0.25), true);
    assert_eq!(commands.len(), 2);
    match &commands[0] {
        Command::SetVolume {
            node,
            amplitude,
            balance,
        } => {
            assert_eq!((*node, *amplitude), (10, single(0.25)));
            assert_eq!(*balance, (single(1.0), single(1.0)));
        }
        other => panic!("asked {other:?}"),
    }
    assert!(matches!(commands[1], Command::SetMute { node: 10, muted: true }));
}

#[test]
fn routes_and_devices_are_asked_for_as_they_are() {
    let backend = Backend::new();
    match backend.set_route(1, 2, true) {
        Command::SetRoute { route, enabled } => {
            assert_eq!(route, Route::new(1, 2));
            assert!(enabled);
        }
        other => panic!("asked {other:?}"),
    }
    let tap = Tap {
        source_pair: 0,
        target_pair: 3,
    };
    match backend.set_tapped_route(Route::new(1, 2).with_tap(tap), false) {
        Command::SetRoute { route, enabled } => {
            assert_eq!(route.tap, tap);
            assert!(!enabled);
        }
        other => panic!("asked {other:?}"),
    }
    assert!(matches!(backend.retry_routes(), Command::RetryRoutes));
    assert!(matches!(backend.create_devices(), Command::CreateDevices));
    assert!(matches!(backend.remove_devices(), Command::RemoveDevices));
    assert!(matches!(backend.recreate_devices(), Command::RecreateDevices));
}

#[test]
fn comings_and_goings_are_logged() {
    let mut backend = Backend::new();
    let mut mic = device(3, "alsa_input.mic", "Mic", Direction::Source);
    mic.class = "Audio/Source".to_owned();
    mic.rate = Some(48_000);
    let lines = backend.poll(vec![Event::Added(mic.clone())], false);
    assert_eq!(
        lines,
        vec!["device appeared: Mic (alsa_input.mic) id 3 Audio/Source 48000 Hz -"]
    );
    // A re-announcement is no news.
    assert!(backend.poll(vec![Event::Added(mic)], false).is_empty());
    let lines = backend.poll(
        vec![
            Event::StreamAdded(stream(10, "Firefox")),
            Event::Removed(10),
            Event::Removed(3),
            Event::Removed(3),
        ],
        false,
    );
    assert_eq!(lines, vec!["device went away: Mic (alsa_input.mic)"]);
}

#[test]
fn a_command_is_copied_as_it_is() {
    let commands = vec![
        Command::Record {
            takes: vec![("a".to_owned(), "/tmp/a.wav".to_owned())],
            rate: 48_000,
        },
        Command::SetControls {
            node: 4,
            controls: vec![("bass:Gain".to_owned(), single(3.0))],
        },
        Command::SetVolume {
            node: 4,
            amplitude: single(0.5),
            balance: (single(1.0), single(0.25)),
        },
        Command::RetryRoutes,
        Command::RemoveDevices,
    ];
    for command in &commands {
        assert_eq!(format!("{:?}", command.clone()), format!("{command:?}"));
    }
}
