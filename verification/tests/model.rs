use pipemeeter_core::model::{Mode, MODES};

#[test]
fn every_mode_reads_back_from_its_number_and_its_name() {
    for (index, mode) in MODES.iter().enumerate() {
        assert_eq!(mode.index() as usize, index);
        assert_eq!(Mode::from_index(index as u32), *mode);
        assert_eq!(Mode::from_remote_name(mode.remote_name()), Some(*mode));
        assert_eq!(
            Mode::from_remote_name(&mode.remote_name().to_uppercase()),
            Some(*mode)
        );
    }
}

#[test]
fn what_is_no_mode_reads_as_none_or_normal() {
    assert_eq!(Mode::from_index(12), Mode::Normal);
    assert_eq!(Mode::from_index(u32::MAX), Mode::Normal);
    assert_eq!(Mode::from_remote_name("stereo"), None);
    assert_eq!(Mode::from_remote_name(""), None);
    assert_eq!(Mode::from_remote_name("TvMix"), Some(Mode::TvMix));
}

#[test]
fn clicking_goes_round_all_twelve() {
    let mut seen = Vec::new();
    let mut mode = Mode::Normal;
    for _ in 0..12 {
        seen.push(mode);
        mode = mode.next();
    }
    assert_eq!(mode, Mode::Normal);
    assert_eq!(seen, MODES.to_vec());
    assert_eq!(Mode::RearOnly.next(), Mode::Normal);
}

#[test]
fn only_the_upmixes_have_more_than_two_channels() {
    let counts: Vec<usize> = MODES.iter().map(|m| m.channels()).collect();
    assert_eq!(counts, vec![2, 2, 2, 2, 2, 2, 3, 5, 7, 2, 2, 2]);
}
