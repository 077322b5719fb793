use pipemeeter_core::audio::links::{End, Join, Port, PortDirection, Route, Router, Tap};

fn port(id: u32, node_id: u32, direction: PortDirection, channel: &str) -> Port {
    at(id, node_id, direction, channel, 0)
}

fn at(id: u32, node_id: u32, direction: PortDirection, channel: &str, slot: u32) -> Port {
    Port {
        id,
        node_id,
        direction,
        channel: channel.to_owned(),
        slot,
    }
}

fn router() -> Router<u32> {
    Router::default()
}

/// Two stereo nodes: 10 plays, 20 listens.
fn stereo() -> Router<u32> {
    let mut r = router();
    r.add_port(at(1, 10, PortDirection::Out, "FL", 0));
    r.add_port(at(2, 10, PortDirection::Out, "FR", 1));
    r.add_port(at(3, 20, PortDirection::In, "FL", 0));
    r.add_port(at(4, 20, PortDirection::In, "FR", 1));
    r
}

fn join(output_port: u32, input_port: u32) -> Join {
    Join {
        output_node: 10,
        output_port,
        input_node: 20,
        input_port,
    }
}

#[test]
fn a_single_pair_is_taken_whatever_it_is_numbered() {
    let mut r = router();
    r.add_port(at(1, 10, PortDirection::Out, "FL", 7));
    r.add_port(at(2, 10, PortDirection::Out, "FR", 8));
    assert_eq!(r.pair_of(10, PortDirection::Out, 0).len(), 2);
}

#[test]
fn a_send_is_told_from_the_main_output_by_its_pair() {
    let mut r = router();
    for pair in 0..3u32 {
        r.add_port(at(pair * 2 + 1, 10, PortDirection::Out, "FL", pair * 2));
        r.add_port(at(pair * 2 + 2, 10, PortDirection::Out, "FR", pair * 2 + 1));
    }

    let main = r.pair_of(10, PortDirection::Out, 0);
    let second = r.pair_of(10, PortDirection::Out, 1);
    assert_eq!(main.len(), 2);
    assert_eq!(second.len(), 2);
    assert_ne!(main[0].id, second[0].id);
    assert_eq!(main[0].channel, second[0].channel);
}

#[test]
fn ports_are_grouped_by_node_and_direction() {
    let mut r = router();
    r.add_port(port(1, 10, PortDirection::Out, "FL"));
    r.add_port(port(2, 10, PortDirection::Out, "FR"));
    r.add_port(port(3, 10, PortDirection::In, "FL"));
    r.add_port(port(4, 20, PortDirection::Out, "FL"));

    assert_eq!(r.ports_of(10, PortDirection::Out).len(), 2);
    assert_eq!(r.ports_of(10, PortDirection::In).len(), 1);
    assert_eq!(r.ports_of(20, PortDirection::Out).len(), 1);
}

#[test]
fn channelless_ports_are_not_routable() {
    let mut r = router();
    r.add_port(port(1, 10, PortDirection::Out, ""));
    assert!(r.ports_of(10, PortDirection::Out).is_empty());
}

#[test]
fn removing_a_port_forgets_it() {
    let mut r = router();
    r.add_port(port(1, 10, PortDirection::Out, "FL"));
    r.remove_port(1);
    assert!(r.ports_of(10, PortDirection::Out).is_empty());
}

#[test]
fn ports_sort_by_channel() {
    let mut r = router();
    r.add_port(port(1, 10, PortDirection::Out, "FR"));
    r.add_port(port(2, 10, PortDirection::Out, "FL"));
    let ports = r.ports_of(10, PortDirection::Out);
    assert_eq!(ports[0].channel, "FL");
    assert_eq!(ports[1].channel, "FR");
}

#[test]
fn a_port_seen_again_replaces_itself() {
    let mut r = router();
    r.add_port(port(1, 10, PortDirection::Out, "FL"));
    r.add_port(port(1, 10, PortDirection::Out, "FR"));
    let ports = r.ports_of(10, PortDirection::Out);
    assert_eq!(ports.len(), 1);
    assert_eq!(ports[0].channel, "FR");
}

#[test]
fn a_stereo_route_is_two_links() {
    let mut r = stereo();
    let joins = r.set_route(Route::new(10, 20), true).expect("joins");
    assert_eq!(joins, vec![join(1, 3), join(2, 4)]);
}

#[test]
fn asking_again_makes_nothing() {
    let mut r = stereo();
    let route = Route::new(10, 20);
    assert!(r.set_route(route, true).is_some());
    r.install(route, vec![100, 101]);
    assert!(r.set_route(route, true).is_none());
    assert!(r.retry_pending().is_empty());
    assert!(r.set_route(route, false).is_none());
    assert!(r.set_route(route, true).is_some());
}

#[test]
fn a_route_waits_for_its_ports() {
    let mut r = router();
    let route = Route::new(10, 20);
    assert_eq!(r.set_route(route, true), Some(Vec::new()));
    r.install(route, Vec::new());
    r.add_port(at(1, 10, PortDirection::Out, "FL", 0));
    assert!(r.retry_pending().is_empty());
    r.add_port(at(3, 20, PortDirection::In, "FL", 0));
    let plans = r.retry_pending();
    assert_eq!(plans.len(), 1);
    assert_eq!(plans[0].joins, vec![join(1, 3)]);
    r.install(route, vec![100]);
    // The other half arrives, and the route is made anew as a pair.
    r.add_port(at(2, 10, PortDirection::Out, "FR", 1));
    r.add_port(at(4, 20, PortDirection::In, "FR", 1));
    let plans = r.retry_pending();
    assert_eq!(plans.len(), 1);
    assert_eq!(plans[0].route, route);
    assert_eq!(plans[0].joins, vec![join(1, 3), join(2, 4)]);
    r.install(route, vec![100, 101]);
    assert!(r.retry_pending().is_empty());
}

#[test]
fn folding_joins_everything_to_everything() {
    let mut r = stereo();
    let route = Route::new(10, 20);
    r.set_route(route, true);
    r.install(route, vec![100, 101]);
    let plans = r.set_mono(10, End::Source, true);
    assert_eq!(plans.len(), 1);
    assert_eq!(
        plans[0].joins,
        vec![join(1, 3), join(1, 4), join(2, 3), join(2, 4)]
    );
    assert!(r.folded(10, 99));
    assert!(!r.folded(20, 10));
    assert!(r.set_mono(10, End::Source, true).is_empty());
    let plans = r.set_mono(10, End::Source, false);
    assert_eq!(plans[0].joins.len(), 2);
    // At the other end it is what arrives that is folded.
    assert!(r.set_mono(20, End::Source, true).is_empty());
    assert_eq!(r.set_mono(20, End::Target, true)[0].joins.len(), 4);
}

#[test]
fn a_mono_output_feeds_every_input() {
    let mut r = router();
    r.add_port(port(1, 10, PortDirection::Out, "MONO"));
    r.add_port(at(3, 20, PortDirection::In, "FL", 0));
    r.add_port(at(4, 20, PortDirection::In, "FR", 1));
    assert_eq!(r.connect(Route::new(10, 20)), vec![join(1, 3), join(1, 4)]);
    assert_eq!(r.pair_count(Route::new(10, 20)), 2);
}

#[test]
fn a_tapped_route_joins_pair_to_pair() {
    let mut r = router();
    for pair in 0..2u32 {
        r.add_port(at(pair * 2 + 1, 10, PortDirection::Out, "FL", pair * 2));
        r.add_port(at(pair * 2 + 2, 10, PortDirection::Out, "FR", pair * 2 + 1));
    }
    r.add_port(at(11, 20, PortDirection::In, "AUX0", 2));
    r.add_port(at(12, 20, PortDirection::In, "AUX1", 3));
    let tap = Tap {
        source_pair: 1,
        target_pair: 1,
    };
    let route = Route::new(10, 20).with_tap(tap);
    // Folding makes no difference to a tap.
    r.set_mono(10, End::Source, true);
    assert_eq!(r.connect(route), vec![join(3, 11), join(4, 12)]);
    assert_eq!(Tap::default(), Route::new(1, 2).tap);
}

#[test]
fn a_pair_far_out_is_not_confused_with_a_near_one() {
    let mut r = router();
    r.add_port(at(1, 10, PortDirection::Out, "FL", 0));
    r.add_port(at(2, 10, PortDirection::Out, "FR", 1));
    assert!(r.pair_of(10, PortDirection::Out, 0x8000_0000).is_empty());
}

#[test]
fn a_forgotten_node_takes_its_routes_along() {
    let mut r = stereo();
    let route = Route::new(10, 20);
    r.set_route(route, true);
    r.install(route, vec![100, 101]);
    r.forget_node(20);
    assert!(r.retry_pending().is_empty());
    // Links for it are not taken any more.
    r.install(route, vec![100, 101]);
    assert!(r.set_route(route, true).is_some());
}

#[test]
fn a_link_is_asked_for_by_number() {
    let list = join(1, 3).properties();
    let text: Vec<String> = list.iter().map(|(k, v)| format!("{k}={v}")).collect();
    assert_eq!(
        text,
        vec![
            "link.output.node=10",
            "link.output.port=1",
            "link.input.node=20",
            "link.input.port=3",
            "object.linger=0"
        ]
    );
}
