use pipemeeter_core::audio::describe::{
    classify, describe, describe_link, describe_port, describe_stream, node_channels, node_kind,
    node_rate, Global, Seen,
};
use pipemeeter_core::audio::links::{End, PortDirection, Route};
use pipemeeter_core::audio::nodes::{Command, Direction, Kind};
use pipemeeter_core::audio::session::{core_error, libc_epipe, Action, Session};
use pipemeeter_core::audio::Event;
use pipemeeter_core::single::Single;

fn props(list: &[(&str, &str)]) -> Vec<(String, String)> {
    list.iter()
        .map(|(k, v)| ((*k).to_owned(), (*v).to_owned()))
        .collect()
}

fn global(id: u32, list: &[(&str, &str)]) -> Global {
    Global {
        id,
        props: Some(props(list)),
    }
}

fn sink(id: u32, name: &str) -> Global {
    global(id, &[("media.class", "Audio/Sink"), ("node.name", name)])
}

fn port(id: u32, node: &str, direction: &str, channel: &str, slot: &str) -> Global {
    global(
        id,
        &[
            ("port.direction", direction),
            ("node.id", node),
            ("audio.channel", channel),
            ("port.id", slot),
        ],
    )
}

fn session() -> Session<u32> {
    Session::default()
}

fn single(value: f32) -> Single {
    Single { bits: value.to_bits() }
}

fn shown(actions: &[Action]) -> Vec<String> {
    actions
        .iter()
        .map(|a| match a {
            Action::Bind { node, formats } => format!("bind {node} {formats}"),
            Action::Meter(t) => format!("meter {} {} {}", t.id, t.name, t.is_sink),
            Action::Release(id) => format!("release {id}"),
            Action::Connect(p) => format!(
                "connect {}->{} {}",
                p.route.source,
                p.route.target,
                p.joins.len()
            ),
            Action::Destroy(id) => format!("destroy {id}"),
            Action::LetGoOfSinks => "let go".to_owned(),
            Action::Create(list) => format!("create {}", list.len()),
            Action::StopTakes => "stop".to_owned(),
            Action::Take { name, path, rate } => format!("take {name} {path} {rate}"),
            Action::Controls { node, controls } => format!("controls {node} {}", controls.len()),
            Action::Volume { node, .. } => format!("volume {node}"),
            Action::Mute { node, muted } => format!("mute {node} {muted}"),
            Action::Report(Event::Added(d)) => format!("added {}", d.name),
            Action::Report(Event::StreamAdded(s)) => format!("stream {}", s.name),
            Action::Report(Event::LinkAdded(l)) => format!("link {}", l.id),
            Action::Report(Event::Removed(id)) => format!("removed {id}"),
            Action::Report(Event::Enumerated) => "enumerated".to_owned(),
            Action::Report(Event::Disconnected(why)) => format!("disconnected {why}"),
            Action::Report(_) => "other".to_owned(),
            Action::Quit => "quit".to_owned(),
        })
        .collect()
}

#[test]
fn a_rate_is_found_wherever_it_is_given() {
    assert_eq!(node_rate(&props(&[("audio.rate", "44100"), ("clock.rate", "1")])), Some(44_100));
    assert_eq!(node_rate(&props(&[("audio.rate", "?"), ("clock.rate", "96000")])), Some(96_000));
    assert_eq!(node_rate(&props(&[("node.rate", "1/48000")])), Some(48_000));
    assert_eq!(node_rate(&props(&[("node.rate", "48000")])), None);
    assert_eq!(node_rate(&props(&[])), None);
}

#[test]
fn channels_are_counted_from_the_map() {
    assert_eq!(node_channels(&props(&[("audio.channels", "6"), ("audio.position", "FL")])), Some(6));
    assert_eq!(node_channels(&props(&[("audio.position", "FL,FR")])), Some(2));
    assert_eq!(node_channels(&props(&[("audio.position", " FL , , FR,")])), Some(2));
    assert_eq!(node_channels(&props(&[("audio.position", "")])), None);
    assert_eq!(node_channels(&props(&[])), None);
}

#[test]
fn a_card_is_told_by_either_key() {
    assert_eq!(node_kind(&props(&[("device.api", "alsa")])), Kind::Physical);
    assert_eq!(node_kind(&props(&[("device.api", "")])), Kind::Virtual);
    assert_eq!(node_kind(&props(&[("device.id", "51")])), Kind::Physical);
    assert_eq!(node_kind(&props(&[])), Kind::Virtual);
}

#[test]
fn a_device_is_described_as_far_as_it_says() {
    let d = describe(&global(
        7,
        &[
            ("media.class", "Audio/Source"),
            ("node.name", "alsa_input.mic"),
            ("node.nick", "Mic"),
            ("device.id", "3"),
            ("audio.rate", "48000"),
        ],
    ))
    .expect("a device");
    assert_eq!((d.id, d.direction, d.kind), (7, Direction::Source, Kind::Physical));
    assert_eq!((d.name.as_str(), d.description.as_str()), ("alsa_input.mic", "Mic"));
    assert_eq!((d.rate, d.channels, d.assignable), (Some(48_000), None, true));
    assert_eq!(describe(&sink(1, "x")).expect("a device").description, "x");
}

#[test]
fn a_stream_is_a_device_only_where_it_is_ours() {
    let stream = |class, name| {
        global(1, &[("media.class", class), ("node.name", name)])
    };
    let ours = describe(&stream("Stream/Output/Audio", "output.pipemeter_vaio_eq")).expect("ours");
    assert_eq!(ours.direction, Direction::Source);
    assert!(!ours.assignable);
    let input = describe(&stream("Stream/Input/Audio", "input.x_fx")).expect("ours");
    assert_eq!(input.direction, Direction::Sink);
    assert!(describe(&stream("Stream/Output/Audio", "firefox")).is_none());
    assert!(describe(&stream("Video/Source", "cam")).is_none());
    assert!(describe(&global(1, &[("media.class", "Audio/Sink")])).is_none());
    assert!(describe(&global(1, &[("node.name", "x")])).is_none());
    assert!(describe(&Global { id: 1, props: None }).is_none());
}

#[test]
fn an_application_is_named_as_well_as_can_be() {
    let s = describe_stream(&global(
        4,
        &[
            ("media.class", "Stream/Output/Audio"),
            ("application.name", "Firefox"),
            ("node.name", "firefox"),
        ],
    ))
    .expect("a stream");
    assert_eq!((s.id, s.name.as_str(), s.node_name.as_str()), (4, "Firefox", "firefox"));
    let bare = describe_stream(&global(
        5,
        &[("media.class", "Stream/Output/Audio"), ("node.description", "Thing")],
    ))
    .expect("a stream");
    assert_eq!((bare.name.as_str(), bare.node_name.as_str()), ("Thing", ""));
    assert!(describe_stream(&global(6, &[("media.class", "Stream/Output/Audio")])).is_none());
    assert!(describe_stream(&sink(7, "x")).is_none());
    assert!(describe_stream(&global(
        8,
        &[("media.class", "Stream/Output/Audio"), ("node.name", "pipemeter_deck_player")],
    ))
    .is_none());
}

#[test]
fn links_and_ports_are_read_by_number() {
    let l = describe_link(&global(9, &[("link.output.node", "3"), ("link.input.node", "4")]))
        .expect("a link");
    assert_eq!((l.id, l.output_node, l.input_node), (9, 3, 4));
    assert!(describe_link(&global(9, &[("link.output.node", "3")])).is_none());
    assert!(describe_link(&global(9, &[("link.output.node", "x"), ("link.input.node", "4")])).is_none());

    let p = describe_port(&port(5, "10", "out", "FL", "3")).expect("a port");
    assert_eq!((p.id, p.node_id, p.slot), (5, 10, 3));
    assert_eq!((p.direction, p.channel.as_str()), (PortDirection::Out, "FL"));
    let bare = describe_port(&global(6, &[("port.direction", "in"), ("node.id", "10")])).expect("a port");
    assert_eq!((bare.slot, bare.channel.as_str()), (0, ""));
    assert!(describe_port(&port(5, "10", "sideways", "FL", "0")).is_none());
    assert!(describe_port(&port(5, "ten", "in", "FL", "0")).is_none());
}

#[test]
fn everything_is_one_thing_or_nothing() {
    assert!(matches!(classify(&sink(1, "x")), Seen::Device(_)));
    assert!(matches!(classify(&port(5, "10", "in", "FL", "0")), Seen::Port(_)));
    assert!(matches!(classify(&global(1, &[("factory.name", "x")])), Seen::Other));
    assert!(matches!(classify(&Global { id: 1, props: None }), Seen::Other));
}

#[test]
fn a_device_is_bound_metered_and_reported() {
    let mut s = session();
    let actions = s.appeared(classify(&sink(1, "alsa_output.x")));
    assert_eq!(
        shown(&actions),
        vec!["bind 1 true", "meter 1 alsa_output.x true", "added alsa_output.x"]
    );
    s.meter(1);
    let again = s.appeared(classify(&sink(1, "alsa_output.x")));
    assert_eq!(shown(&again), vec!["bind 1 true", "added alsa_output.x"]);
    let chain = global(
        2,
        &[
            ("media.class", "Stream/Output/Audio"),
            ("node.name", "output.pipemeter_vaio_eq"),
        ],
    );
    assert_eq!(
        shown(&s.appeared(classify(&chain))),
        vec!["bind 2 true", "added output.pipemeter_vaio_eq"]
    );
}

#[test]
fn an_application_is_bound_and_metered_by_its_node() {
    let mut s = session();
    let app = global(
        4,
        &[
            ("media.class", "Stream/Output/Audio"),
            ("application.name", "Firefox"),
            ("node.name", "firefox"),
        ],
    );
    assert_eq!(
        shown(&s.appeared(classify(&app))),
        vec!["bind 4 false", "meter 4 firefox false", "stream Firefox"]
    );
    let nameless = global(
        5,
        &[("media.class", "Stream/Output/Audio"), ("application.name", "Thing")],
    );
    assert_eq!(shown(&s.appeared(classify(&nameless))), vec!["bind 5 false", "stream Thing"]);
    let link = global(6, &[("link.output.node", "4"), ("link.input.node", "1")]);
    assert_eq!(shown(&s.appeared(classify(&link))), vec!["link 6"]);
}

#[test]
fn ports_complete_the_routes_that_wait_for_them() {
    let mut s = session();
    let route = Route::new(10, 20);
    let asked = s.handle(Command::SetRoute {
        route,
        enabled: true,
    });
    assert_eq!(shown(&asked), vec!["connect 10->20 0"]);
    assert!(s.appeared(classify(&port(1, "10", "out", "FL", "0"))).is_empty());
    let one = s.appeared(classify(&port(3, "20", "in", "FL", "0")));
    assert_eq!(shown(&one), vec!["connect 10->20 1"]);
    s.install(route, vec![100]);
    assert!(s.handle(Command::RetryRoutes).is_empty());
    s.appeared(classify(&port(2, "10", "out", "FR", "1")));
    let two = s.appeared(classify(&port(4, "20", "in", "FR", "1")));
    assert_eq!(shown(&two), vec!["connect 10->20 2"]);
    s.install(route, vec![100, 101]);
    let folded = s.handle(Command::SetMono {
        node: 20,
        end: End::Target,
        mono: true,
    });
    assert_eq!(shown(&folded), vec!["connect 10->20 4"]);
    // A node that goes takes its routes along, and a port that goes is gone.
    assert_eq!(shown(&s.vanished(20)), vec!["release 20", "removed 20"]);
    assert!(s.handle(Command::RetryRoutes).is_empty());
}

#[test]
fn devices_are_made_once() {
    let mut s = session();
    assert_eq!(shown(&s.handle(Command::CreateDevices)), vec!["create 11"]);
    s.appeared(classify(&sink(1, "pipemeter_vaio")));
    s.appeared(classify(&sink(2, "pipemeter_b1")));
    assert_eq!(shown(&s.handle(Command::CreateDevices)), vec!["create 9"]);
    // Once one is gone it is missing again.
    s.vanished(1);
    assert_eq!(shown(&s.handle(Command::CreateDevices)), vec!["create 10"]);
}

#[test]
fn a_misfiled_device_is_replaced() {
    let mut s = session();
    let wrong = global(
        5,
        &[("media.class", "Audio/Source"), ("node.name", "pipemeter_b1")],
    );
    s.appeared(classify(&wrong));
    s.appeared(classify(&sink(6, "pipemeter_b2")));
    assert_eq!(shown(&s.handle(Command::CreateDevices)), vec!["destroy 5", "create 10"]);
}

#[test]
fn removing_destroys_and_recreating_makes_all_again() {
    let mut s = session();
    s.appeared(classify(&sink(5, "pipemeter_b1")));
    s.appeared(classify(&sink(6, "pipemeter_b2")));
    assert_eq!(
        shown(&s.handle(Command::RemoveDevices)),
        vec!["destroy 5", "destroy 6", "let go"]
    );
    assert_eq!(
        shown(&s.handle(Command::RecreateDevices)),
        vec!["destroy 5", "destroy 6", "let go", "create 11"]
    );
    // They are off the list at once.
    assert_eq!(shown(&s.handle(Command::RecreateDevices)), vec!["let go", "create 11"]);
}

#[test]
fn a_write_waits_for_its_node() {
    let mut s = session();
    let write = |node, count: usize| Command::SetControls {
        node,
        controls: vec![("bass:Gain".to_owned(), single(1.0)); count],
    };
    assert!(s.handle(write(1, 1)).is_empty());
    assert!(s.handle(write(2, 2)).is_empty());
    // A newer write takes the place of the one that waits.
    assert!(s.handle(write(1, 3)).is_empty());
    s.bind(1);
    assert_eq!(shown(&s.handle(write(3, 1))), vec!["controls 1 3"]);
    s.bind(2);
    assert_eq!(
        shown(&s.handle(write(2, 4))),
        vec!["controls 2 2", "controls 2 4"]
    );
    assert_eq!(shown(&s.handle(write(1, 1))), vec!["controls 1 1"]);
}

#[test]
fn volume_and_mute_need_a_proxy() {
    let mut s = session();
    let volume = |node| Command::SetVolume {
        node,
        amplitude: single(0.5),
        balance: (single(1.0), single(1.0)),
    };
    assert!(s.handle(volume(1)).is_empty());
    assert!(s.handle(Command::SetMute { node: 1, muted: true }).is_empty());
    s.bind(1);
    assert_eq!(shown(&s.handle(volume(1))), vec!["volume 1"]);
    assert_eq!(
        shown(&s.handle(Command::SetMute { node: 1, muted: true })),
        vec!["mute 1 true"]
    );
    s.vanished(1);
    assert!(s.handle(volume(1)).is_empty());
}

#[test]
fn a_recording_stops_the_one_before() {
    let mut s = session();
    let record = Command::Record {
        takes: vec![
            ("a".to_owned(), "/tmp/a.wav".to_owned()),
            ("b".to_owned(), "/tmp/b.wav".to_owned()),
        ],
        rate: 48_000,
    };
    assert_eq!(
        shown(&s.handle(record)),
        vec!["stop", "take a /tmp/a.wav 48000", "take b /tmp/b.wav 48000"]
    );
    let stop = Command::Record {
        takes: Vec::new(),
        rate: 48_000,
    };
    assert_eq!(shown(&s.handle(stop)), vec!["stop"]);
}

#[test]
fn the_sweep_is_reported_once() {
    let mut s = session();
    assert!(s.done(0, 1, 2).is_empty());
    assert!(s.done(5, 2, 2).is_empty());
    assert_eq!(shown(&s.done(0, 2, 2)), vec!["enumerated"]);
    assert!(s.done(0, 2, 2).is_empty());
}

#[test]
fn only_a_broken_pipe_ends_the_connection() {
    assert_eq!(libc_epipe(), 32);
    assert_eq!(
        shown(&core_error(0, -32, "connection error")),
        vec!["disconnected connection error (-32)", "quit"]
    );
    assert!(core_error(0, -2, "no such file").is_empty());
    assert!(core_error(7, -32, "elsewhere").is_empty());
    assert!(core_error(0, i32::MIN, "worst").is_empty());
}

#[test]
fn a_held_write_is_sent_once() {
    let mut s = session();
    let write = |node, count: usize| Command::SetControls {
        node,
        controls: vec![("bass:Gain".to_owned(), single(1.0)); count],
    };
    s.bind(9);
    assert!(s.handle(write(1, 2)).is_empty());
    s.bind(1);
    assert_eq!(shown(&s.handle(write(9, 1))), vec!["controls 1 2", "controls 9 1"]);
    assert_eq!(shown(&s.handle(write(9, 1))), vec!["controls 9 1"]);
    assert_eq!(shown(&s.handle(write(1, 3))), vec!["controls 1 3"]);
}

#[test]
fn the_routes_that_have_links_are_counted() {
    let mut s = session();
    let (first, second) = (Route::new(10, 20), Route::new(10, 30));
    for route in [first, second] {
        s.handle(Command::SetRoute {
            route,
            enabled: true,
        });
    }
    assert_eq!(s.route_count(), 0);
    s.install(first, vec![100, 101]);
    s.install(second, vec![102]);
    assert_eq!(s.route_count(), 2);
    s.vanished(30);
    assert_eq!(s.route_count(), 1);
}
