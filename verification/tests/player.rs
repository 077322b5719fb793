use std::collections::VecDeque;

use pipemeeter_core::audio::player::{
    append_samples, counted, decoder_turn, draw, fill, heard, paused, pick_track,
    playback_channels, player_gain, properties, track_format, Decoded, Heard, Player, Status,
    StatusHandle, Track, Turn,
};
use pipemeeter_core::audio::recorder::{self, Drain};
use pipemeeter_core::single::Single;

fn single(value: f32) -> Single {
    Single { bits: value.to_bits() }
}

fn singles(values: &[f32]) -> Vec<Single> {
    values.iter().map(|v| single(*v)).collect()
}

fn names(list: &[&str]) -> Vec<String> {
    list.iter().map(|n| (*n).to_owned()).collect()
}

#[test]
fn a_status_is_read_off_the_counters() {
    let handle = StatusHandle {
        position_frames: 72_000,
        total_frames: 0,
        sample_rate: 48_000,
        playing: true,
        ended: false,
    };
    let status = handle.snapshot();
    assert_eq!(status.total_frames, None);
    assert_eq!(status.channels, 2);
    assert!(status.is_playing && !status.is_ended);
    assert_eq!(status.position_seconds().as_secs(), 1);
    assert_eq!(status.position_seconds().frames, 24_000);
    assert_eq!(status.duration_seconds(), None);
    let known = StatusHandle {
        total_frames: 96_000,
        ..handle
    };
    assert_eq!(known.snapshot().duration_seconds().expect("known").as_secs(), 2);
    assert_eq!(Status::default().position_seconds().as_secs(), 0);
    assert_eq!(Status::default().duration_seconds(), None);
}

#[test]
fn one_stream_counts_and_hands_over() {
    let mut player = Player::new();
    assert!(player.is_silent());
    // The first cannot be opened.
    assert_eq!(player.claim(), Some(0));
    let second = player.claim().expect("a number");
    player.opened("a1".to_owned(), second);
    let third = player.claim().expect("a number");
    player.opened("b1".to_owned(), third);
    assert_eq!(player.settle(), second);
    assert_eq!(player.settle(), second);
    // Whoever counts is switched off.
    assert_eq!(player.retain(&names(&["b1", "a2"])), vec![second]);
    assert_eq!(player.open("b1"), None);
    assert_eq!(player.open("a2"), Some(3));
    player.opened("a2".to_owned(), 3);
    assert_eq!(player.settle(), third);
    assert!(player.has("a2") && !player.has("a1"));
    assert_eq!(player.retain(&Vec::new()), vec![third, 3]);
    assert!(player.is_silent());
    assert_eq!(player.settle(), third);
    assert_eq!(counted(third, third, 512), 512);
    assert_eq!(counted(3, third, 512), 0);
}

#[test]
fn a_stream_into_one_of_ours_stays_where_it_is() {
    let ours = properties("pipemeter_a1");
    assert_eq!(ours.len(), 8);
    assert_eq!(
        ours[5],
        ("node.description".to_owned(), "PipeMeter Player -> pipemeter_a1".to_owned())
    );
    assert_eq!(ours[6].0, "stream.dont-reconnect");
    assert_eq!(ours[7].0, "stream.capture.sink");
    assert_eq!(properties("alsa_output.x").len(), 6);
    assert_eq!(playback_channels(1), 1);
    assert_eq!(playback_channels(6), 2);
}

#[test]
fn the_bottom_of_the_fader_is_silence() {
    let linear = single(0.001);
    assert_eq!(player_gain(single(-60.0), linear), single(0.0));
    assert_eq!(player_gain(single(-90.0), linear), single(0.0));
    assert_eq!(player_gain(single(f32::NEG_INFINITY), linear), single(0.0));
    assert_eq!(player_gain(single(-59.9), linear), linear);
    assert_eq!(player_gain(single(6.0), linear), linear);
    assert_eq!(player_gain(single(f32::NAN), linear), linear);
}

#[test]
fn a_track_that_does_not_say_is_taken_for_the_usual() {
    let silent = Track {
        rate: None,
        channels: None,
        frames: None,
    };
    assert_eq!(track_format(silent), (48_000, 2, 0));
    let said = Track {
        rate: Some(44_100),
        channels: Some(0b100),
        frames: Some(7),
    };
    assert_eq!(track_format(said), (44_100, 1, 7));
    // Front left and right, centre, rear pair and the low frequencies.
    let surround = Track {
        channels: Some(0b11_1111),
        ..said
    };
    assert_eq!(track_format(surround).1, 6);
    // Bits that stand for no position are not counted.
    let beyond = Track {
        channels: Some(0xfe00_0001),
        ..said
    };
    assert_eq!(track_format(beyond).1, 2);
    let all = Track {
        channels: Some(u32::MAX),
        ..said
    };
    assert_eq!(track_format(all).1, 26);
    assert_eq!(pick_track(&vec![false, true, true]), Some(1));
    assert_eq!(pick_track(&vec![false]), None);
}

#[test]
fn planes_are_braided_and_mono_is_doubled() {
    let stereo = Decoded::Planes {
        planes: vec![
            singles(&[0.1, 0.2, 0.3]),
            singles(&[0.4, 0.5, 0.6]),
            singles(&[9.0, 9.0, 9.0]),
        ],
        frames: 2,
    };
    assert_eq!(append_samples(&stereo), singles(&[0.1, 0.4, 0.2, 0.5]));
    let mono = Decoded::Planes {
        planes: vec![singles(&[0.1, 0.2])],
        frames: 5,
    };
    assert_eq!(append_samples(&mono), singles(&[0.1, 0.1, 0.2, 0.2]));
    let nothing = Decoded::Planes {
        planes: Vec::new(),
        frames: 3,
    };
    assert!(append_samples(&nothing).is_empty());
}

#[test]
fn only_the_front_pair_of_whole_frames_is_played() {
    let surround = Decoded::Interleaved {
        samples: singles(&[0.1, 0.2, 9.0, 0.3, 0.4, 9.0, 0.5]),
        channels: 0b1011,
    };
    assert_eq!(append_samples(&surround), singles(&[0.1, 0.2, 0.3, 0.4]));
    let mono = Decoded::Interleaved {
        samples: singles(&[0.1, 0.2]),
        channels: 0b1,
    };
    assert_eq!(append_samples(&mono), singles(&[0.1, 0.1, 0.2, 0.2]));
}

#[test]
fn a_buffer_takes_what_fits_and_leaves_the_rest() {
    let mut queue: VecDeque<Single> = singles(&[0.1, 0.2, 0.3, 0.4, 0.5]).into();
    // Room for two frames and a bit.
    assert_eq!(draw(&mut queue, 20), singles(&[0.1, 0.2, 0.3, 0.4]));
    assert_eq!(queue.len(), 1);
    // The last frame has no right side.
    assert_eq!(draw(&mut queue, 64), singles(&[0.5, 0.0]));
    assert!(queue.is_empty());
    assert!(draw(&mut queue, 64).is_empty());
    queue.push_back(single(0.1));
    assert!(draw(&mut queue, 7).is_empty());
    assert_eq!(queue.len(), 1);
}

#[test]
fn a_buffer_is_filled_up_with_silence() {
    let filled = fill(&singles(&[0.5, -0.5]), 21);
    let mut expected = Vec::new();
    expected.extend_from_slice(&0.5f32.to_le_bytes());
    expected.extend_from_slice(&(-0.5f32).to_le_bytes());
    expected.extend_from_slice(&[0; 13]);
    assert_eq!(filled.bytes, expected);
    assert_eq!(filled.size, 16);
    assert_eq!(filled.frames, 1);
    let idle = paused(9);
    assert_eq!(idle.bytes, vec![0; 9]);
    assert_eq!((idle.size, idle.frames), (9, 0));
}

#[test]
fn the_decoder_keeps_about_a_second_ahead() {
    assert_eq!(decoder_turn(true, &vec![0], 48_000), Turn::Stop);
    assert_eq!(decoder_turn(false, &vec![0, 96_000], 48_000), Turn::Read);
    assert_eq!(decoder_turn(false, &vec![96_001, 0], 48_000), Turn::Wait(15));
    assert_eq!(decoder_turn(false, &Vec::new(), 0), Turn::Read);
    assert_eq!(heard(Some(3), 3), Heard::Decode);
    assert_eq!(heard(Some(2), 3), Heard::Skip);
    assert_eq!(heard(None, 3), Heard::Ended(50));
}

#[test]
fn a_take_collects_what_was_filled() {
    let bytes: Vec<u8> = [0.5f32, -0.25, 1.5]
        .iter()
        .flat_map(|s| s.to_le_bytes())
        .collect();
    let mut pending = singles(&[9.0]);
    recorder::collect(&mut pending, &bytes, 8);
    assert_eq!(pending, singles(&[9.0, 0.5, -0.25]));
    recorder::collect(&mut pending, &bytes[..7], 400);
    assert_eq!(pending, singles(&[9.0, 0.5, -0.25, 0.5]));
}

#[test]
fn a_take_is_drained_before_it_is_finished() {
    assert_eq!(recorder::drain(5, true), Drain::Write);
    assert_eq!(recorder::drain(5, false), Drain::Write);
    assert_eq!(recorder::drain(0, false), Drain::Sleep(20));
    assert_eq!(recorder::drain(0, true), Drain::Finish);
}

#[test]
fn a_take_targets_its_node_by_name() {
    let list = recorder::properties("pipemeter_b1");
    assert!(list.contains(&("target.object".to_owned(), "pipemeter_b1".to_owned())));
    assert!(list.contains(&("stream.capture.sink".to_owned(), "true".to_owned())));
    assert_eq!(list.len(), 6);
}

#[test]
fn changing_the_targets_keeps_what_stays() {
    // What the deck does with a list of targets, where "broken" is a node
    // that no stream can be opened into.
    fn retarget(player: &mut Player, wanted: &[&str]) -> Vec<(String, u64)> {
        let wanted = names(wanted);
        player.retain(&wanted);
        let mut opened = Vec::new();
        for target in &wanted {
            if let Some(id) = player.open(target) {
                if target != "broken" {
                    player.opened(target.clone(), id);
                    opened.push((target.clone(), id));
                }
            }
        }
        opened
    }
    let mut player = Player::new();
    let opened = retarget(&mut player, &["a1", "b1", "a1"]);
    assert_eq!(opened, vec![("a1".to_owned(), 0), ("b1".to_owned(), 1)]);
    assert_eq!(player.settle(), 0);
    // The counter stays, one goes, one is new and one cannot be opened.
    let opened = retarget(&mut player, &["broken", "a2", "a1", "a2"]);
    assert_eq!(opened, vec![("a2".to_owned(), 3)]);
    assert!(player.has("a1") && player.has("a2"));
    assert!(!player.has("b1") && !player.has("broken"));
    assert_eq!(player.settle(), 0);
    // The counter goes: the oldest that stays takes over.
    assert_eq!(retarget(&mut player, &["b2", "a2"]), vec![("b2".to_owned(), 4)]);
    assert_eq!(player.settle(), 3);
    assert_eq!(player.retain(&Vec::new()), vec![3, 4]);
}
