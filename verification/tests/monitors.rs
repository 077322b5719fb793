use pipemeeter_core::audio::monitors::{hold_at_unity, reads_unity, volume_percent};

const LISTING: &str = "Source #1\n\
\tName: pipemeter_b1.monitor\n\
\tMute: no\n\
\tVolume: front-left: 33153 /  51% / -17.76 dB,   front-right: 33153 /  51% / -17.76 dB\n\
\tBase Volume: 65536 / 100% / 0.00 dB\n\
Source #2\n\
\tName: pipemeter_b2.monitor\n\
\tVolume: front-left: 65536 / 100% / 0.00 dB,   front-right: 65536 / 100% / 0.00 dB\n";

#[test]
fn a_monitors_own_volume_is_read_from_its_block() {
    assert_eq!(volume_percent(LISTING, "pipemeter_b1.monitor"), Some(51));
    assert_eq!(volume_percent(LISTING, "pipemeter_b2.monitor"), Some(100));
}

/// The bug: reading the first volume in the listing answers every
/// question with the first source's.
#[test]
fn each_monitor_reads_its_own() {
    assert_ne!(
        volume_percent(LISTING, "pipemeter_b2.monitor"),
        volume_percent(LISTING, "pipemeter_b1.monitor")
    );
}

#[test]
fn an_unknown_source_reads_as_nothing() {
    assert_eq!(volume_percent(LISTING, "nothing.monitor"), None);
}

#[test]
fn a_line_without_a_percentage_reads_as_nothing() {
    assert_eq!(volume_percent("Name: x\n\tVolume: (none)\n", "x"), None);
    assert_eq!(volume_percent("Name: x\n\tVolume: a / lots / b\n", "x"), None);
    assert_eq!(volume_percent("Name: x\n", "x"), None);
    assert_eq!(volume_percent("Name: x", "x"), None);
}

#[test]
fn only_a_monitor_that_drifted_is_put_back() {
    assert_eq!(
        hold_at_unity(Some(LISTING), "pipemeter_b1"),
        Some(vec![
            "set-source-volume".to_owned(),
            "pipemeter_b1.monitor".to_owned(),
            "100%".to_owned()
        ])
    );
    assert_eq!(hold_at_unity(Some(LISTING), "pipemeter_b2"), None);
    assert_eq!(hold_at_unity(Some(LISTING), "pipemeter_b3"), None);
    assert_eq!(hold_at_unity(None, "pipemeter_b1"), None);
    assert!(!reads_unity(Some(LISTING), "pipemeter_b1.monitor"));
    assert!(reads_unity(None, "pipemeter_b1.monitor"));
}

/// A block that reports no volume is not answered with the next one's.
#[test]
fn a_block_without_a_volume_reads_as_nothing() {
    let listing = "Source #1\n\tName: a\n\tMute: no\nSource #2\n\tName: b\n\tVolume: x: 65536 / 100% / 0.00 dB\n";
    assert_eq!(volume_percent(listing, "a"), None);
    assert_eq!(volume_percent(listing, "b"), Some(100));
    let drifted = "Source #1\n\tName: a.monitor\n\tMute: no\nSource #2\n\tName: b.monitor\n\tVolume: x: 33153 / 51% / -17.76 dB\n";
    assert!(reads_unity(Some(drifted), "a.monitor"));
    assert_eq!(hold_at_unity(Some(drifted), "a"), None);
    assert!(hold_at_unity(Some(drifted), "b").is_some());
}
