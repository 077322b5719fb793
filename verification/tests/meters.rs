use pipemeeter_core::audio::meters::{self, Target};
use pipemeeter_core::single::Single;

fn interleaved(samples: &[f32]) -> Vec<u8> {
    samples.iter().flat_map(|s| s.to_le_bytes()).collect()
}

fn float(value: Single) -> f32 {
    f32::from_bits(value.bits)
}

fn peak_per_channel(bytes: &[u8], samples_len: usize, channels: usize) -> (f32, f32) {
    let (l, r) = meters::peak_per_channel(bytes, samples_len, channels);
    (float(l), float(r))
}

#[test]
fn stereo_channels_are_read_separately() {
    // L, R, L, R
    let bytes = interleaved(&[0.25, 0.75, -0.5, 0.1]);
    let (l, r) = peak_per_channel(&bytes, 4, 2);
    assert!((l - 0.5).abs() < f32::EPSILON, "left peak was {l}");
    assert!((r - 0.75).abs() < f32::EPSILON, "right peak was {r}");
}

#[test]
fn mono_drives_both_columns() {
    let bytes = interleaved(&[0.4, -0.9]);
    let (l, r) = peak_per_channel(&bytes, 2, 1);
    assert!((l - 0.9).abs() < f32::EPSILON);
    assert!((r - 0.9).abs() < f32::EPSILON);
}

#[test]
fn silence_reads_as_zero() {
    let bytes = interleaved(&[0.0, 0.0]);
    assert_eq!(peak_per_channel(&bytes, 2, 2), (0.0, 0.0));
}

#[test]
fn a_short_buffer_does_not_panic() {
    // Claims more samples than the bytes actually hold.
    let bytes = interleaved(&[0.5]);
    let (l, _) = peak_per_channel(&bytes, 16, 2);
    assert!((l - 0.5).abs() < f32::EPSILON);
}

#[test]
fn only_the_claimed_samples_count() {
    let bytes = interleaved(&[0.1, 0.2, 0.9, 0.9]);
    assert_eq!(peak_per_channel(&bytes, 2, 2), (0.1, 0.2));
    assert_eq!(peak_per_channel(&bytes, 0, 2), (0.0, 0.0));
}

#[test]
fn what_is_not_a_number_is_not_a_peak() {
    let bytes = interleaved(&[f32::NAN, 0.3, -0.2, f32::NAN]);
    assert_eq!(peak_per_channel(&bytes, 4, 2), (0.2, 0.3));
    let loud = interleaved(&[f32::NEG_INFINITY]);
    assert_eq!(peak_per_channel(&loud, 1, 1), (f32::INFINITY, f32::INFINITY));
}

#[test]
fn more_channels_than_two_are_skipped_over() {
    let bytes = interleaved(&[0.1, 0.2, 0.9, 0.3, -0.4, 0.9]);
    assert_eq!(peak_per_channel(&bytes, 6, 3), (0.3, 0.4));
}

#[test]
fn a_wide_stride_does_not_run_past_the_end() {
    let bytes = interleaved(&[0.1, 0.2]);
    assert_eq!(peak_per_channel(&bytes, 2, usize::MAX), (0.1, 0.2));
}

#[test]
fn nothing_is_read_before_the_format_is_known() {
    let bytes = interleaved(&[0.5, 0.25]);
    assert!(meters::reading(&bytes, 8, 0).is_none());
    let (l, r) = meters::reading(&bytes, 8, 2).expect("a reading");
    assert_eq!((float(l), float(r)), (0.5, 0.25));
    let (l, r) = meters::reading(&bytes, 4, 2).expect("a reading");
    assert_eq!((float(l), float(r)), (0.5, 0.0));
}

#[test]
fn a_sink_is_read_through_its_monitor() {
    let target = |is_sink| Target {
        id: 7,
        name: "alsa_output.x".to_owned(),
        is_sink,
    };
    let value = |list: Vec<(String, String)>, key: &str| {
        list.into_iter().find(|(k, _)| k == key).map(|(_, v)| v)
    };
    let sink = target(true).properties();
    assert_eq!(sink.len(), 7);
    assert_eq!(value(sink, "stream.capture.sink").as_deref(), Some("true"));
    assert_eq!(value(target(false).properties(), "stream.capture.sink"), None);
    assert_eq!(
        value(target(false).properties(), "target.object").as_deref(),
        Some("alsa_output.x")
    );
    assert_eq!(
        value(target(false).properties(), "node.name").as_deref(),
        Some("pipemeter_meter")
    );
}
