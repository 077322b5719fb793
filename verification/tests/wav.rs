use pipemeeter_core::audio::wav::{
    can_describe, Container, Depth, Op, Writer, BEXT_LEN, DS64_LEN, HEADER_LEN,
};

/// A file in memory.
struct Disk {
    bytes: Vec<u8>,
    at: usize,
}

impl Disk {
    fn new() -> Self {
        Disk {
            bytes: Vec::new(),
            at: 0,
        }
    }

    fn carry_out(&mut self, ops: Vec<Op>) {
        for op in ops {
            match op {
                Op::Put(piece) => {
                    let end = self.at + piece.len();
                    if self.bytes.len() < end {
                        self.bytes.resize(end, 0);
                    }
                    self.bytes[self.at..end].copy_from_slice(&piece);
                    self.at = end;
                }
                Op::Seek(at) => self.at = at as usize,
            }
        }
    }
}

/// Samples as the words a depth stores.
fn words(depth: Depth, samples: &[f32]) -> Vec<u32> {
    samples
        .iter()
        .map(|s| match depth {
            Depth::Bits16 => (s.clamp(-1.0, 1.0) * 32767.0) as i16 as u32,
            Depth::Bits24 => (s.clamp(-1.0, 1.0) * 8_388_607.0) as i32 as u32,
            Depth::Float32 => s.to_bits(),
        })
        .collect()
}

fn take(rate: u32, channels: u16, depth: Depth, container: Container, samples: &[f32]) -> Vec<u8> {
    let mut disk = Disk::new();
    let (mut writer, ops) = Writer::create(rate, channels, depth, container);
    disk.carry_out(ops);
    disk.carry_out(writer.write(&words(depth, samples)));
    disk.carry_out(writer.finish());
    disk.bytes
}

/// The header has to agree with the bytes: a 24-bit file that says 16
/// plays as noise, and one whose block align is wrong plays at the
/// wrong speed.
#[test]
fn each_depth_describes_itself_correctly() {
    for (depth, tag, bits, bytes) in [
        (Depth::Bits16, 1u16, 16u16, 2u32),
        (Depth::Bits24, 1, 24, 3),
        (Depth::Float32, 3, 32, 4),
    ] {
        let b = take(48_000, 2, depth, Container::Wav, &[0.5, -0.5]);
        let at = |i: usize| u16::from_le_bytes(b[i..i + 2].try_into().unwrap());
        assert_eq!(at(20), tag, "{depth:?} format tag");
        assert_eq!(at(34), bits, "{depth:?} bits per sample");
        assert_eq!(u32::from(at(32)), 2 * bytes, "{depth:?} block align");
        assert_eq!(
            u32::from_le_bytes(b[28..32].try_into().unwrap()),
            48_000 * 2 * bytes,
            "{depth:?} byte rate"
        );

        // One frame of two samples, and nothing else.
        let data = u32::from_le_bytes(b[40..44].try_into().unwrap());
        assert_eq!(data, 2 * bytes, "{depth:?} data length");
        assert_eq!(b.len() as u32, HEADER_LEN + data);
    }
}

/// The reason to choose float: it is the only one that keeps a sample
/// the integer formats would have to clip away.
#[test]
fn float_keeps_what_is_past_full_scale() {
    let b = take(48_000, 1, Depth::Float32, Container::Wav, &[2.5]);
    let sample = f32::from_le_bytes(b[44..48].try_into().unwrap());
    assert!((sample - 2.5).abs() < f32::EPSILON, "got {sample}");
}

#[test]
fn the_spelling_round_trips() {
    for depth in [Depth::Bits16, Depth::Bits24, Depth::Float32] {
        assert_eq!(Depth::parse(depth.as_str()), depth);
    }
    assert_eq!(Depth::parse("nonsense"), Depth::Bits16);
}

/// Each container puts its own chunks before the samples, and the
/// data has to start exactly where the header says it stops.
#[test]
fn every_container_writes_the_header_it_promises() {
    for (container, magic) in [
        (Container::Wav, b"RIFF"),
        (Container::Bwf, b"RIFF"),
        (Container::Rf64, b"RF64"),
    ] {
        let b = take(48_000, 2, Depth::Bits16, container, &[0.5, -0.5]);
        assert_eq!(&b[0..4], magic, "{container:?} magic");
        assert_eq!(&b[8..12], b"WAVE", "{container:?} form");
        // One frame of two 16-bit samples after the header.
        assert_eq!(
            b.len() as u32,
            container.header_len() + 4,
            "{container:?} header length"
        );
    }
}

/// BWF is a WAV with a description chunk in front of the format, and
/// a program that does not know it should skip it and still play.
#[test]
fn broadcast_wave_carries_its_description_chunk() {
    let b = take(48_000, 2, Depth::Bits16, Container::Bwf, &[0.0; 8]);
    assert_eq!(&b[12..16], b"bext");
    assert_eq!(u32::from_le_bytes(b[16..20].try_into().unwrap()), 602);
    assert_eq!(&b[622..626], b"fmt ", "the format follows the description");
}

/// RF64 exists because a WAV cannot say it is bigger than 4 GB. The
/// 32-bit lengths stay at -1 and the real ones live in `ds64`.
#[test]
fn rf64_keeps_its_lengths_in_sixty_four_bits() {
    let b = take(48_000, 2, Depth::Bits16, Container::Rf64, &[0.25; 16]);
    assert_eq!(&b[12..16], b"ds64");
    assert_eq!(
        u32::from_le_bytes(b[4..8].try_into().unwrap()),
        u32::MAX,
        "the 32-bit RIFF size must stay -1"
    );
    let data = u64::from_le_bytes(b[28..36].try_into().unwrap());
    let frames = u64::from_le_bytes(b[36..44].try_into().unwrap());
    assert_eq!(data, 32, "16 samples of 2 bytes");
    assert_eq!(frames, 8, "two channels");
    assert_eq!(b.len() as u64, u64::from(Container::Rf64.header_len()) + data);
}

#[test]
fn container_spellings_round_trip() {
    for container in [Container::Wav, Container::Bwf, Container::Rf64] {
        assert_eq!(Container::parse(container.as_str()), container);
    }
    assert_eq!(Container::parse("nonsense"), Container::Wav);
}

#[test]
fn cycling_the_container_comes_back_round() {
    let mut at = Container::Wav;
    for _ in 0..3 {
        at = at.next();
    }
    assert_eq!(at, Container::Wav);
}

#[test]
fn a_finished_file_declares_its_own_length() {
    let mut disk = Disk::new();
    let (mut writer, ops) = Writer::create(48_000, 2, Depth::Bits16, Container::Wav);
    disk.carry_out(ops);
    disk.carry_out(writer.write(&words(
        Depth::Bits16,
        &[0.0, 0.0, 1.0, -1.0, 0.5, 0.5, 0.0, 0.0],
    )));
    assert_eq!(writer.duration().as_secs(), 0);
    disk.carry_out(writer.finish());

    let bytes = disk.bytes;
    assert_eq!(&bytes[0..4], b"RIFF");
    assert_eq!(&bytes[8..12], b"WAVE");

    let data_len = u32::from_le_bytes(bytes[40..44].try_into().unwrap());
    assert_eq!(data_len, 16);
    assert_eq!(bytes.len() as u32, HEADER_LEN + data_len);

    let riff_len = u32::from_le_bytes(bytes[4..8].try_into().unwrap());
    assert_eq!(riff_len, HEADER_LEN + data_len - 8);
}

#[test]
fn an_unfinished_file_still_declares_what_it_holds() {
    let mut disk = Disk::new();
    let (mut writer, ops) = Writer::create(48_000, 2, Depth::Bits16, Container::Wav);
    disk.carry_out(ops);
    disk.carry_out(writer.write(&words(Depth::Bits16, &[0.25; 64])));
    drop(writer);

    let bytes = disk.bytes;
    let data_len = u32::from_le_bytes(bytes[40..44].try_into().unwrap());
    assert_eq!(data_len, 128, "an abandoned take claimed the wrong length");
    assert_eq!(bytes.len() as u32, HEADER_LEN + data_len);
}

#[test]
fn writing_after_a_patch_does_not_land_in_the_header() {
    let mut disk = Disk::new();
    let (mut writer, ops) = Writer::create(48_000, 2, Depth::Bits16, Container::Wav);
    disk.carry_out(ops);
    disk.carry_out(writer.write(&words(Depth::Bits16, &[0.5; 4])));
    disk.carry_out(writer.write(&words(Depth::Bits16, &[0.5; 4])));
    disk.carry_out(writer.finish());

    let bytes = disk.bytes;
    assert_eq!(&bytes[0..4], b"RIFF");
    assert_eq!(&bytes[36..40], b"data");
    assert_eq!(u32::from_le_bytes(bytes[40..44].try_into().unwrap()), 16);
}

#[test]
fn the_duration_follows_the_frames_written() {
    let (mut writer, _) = Writer::create(8, 2, Depth::Bits16, Container::Wav);
    writer.write(&words(Depth::Bits16, &[0.0; 32]));
    assert_eq!(writer.duration().as_secs(), 2);
    writer.finish();
}

#[test]
fn a_take_without_a_rate_has_no_duration() {
    let (mut writer, _) = Writer::create(0, 2, Depth::Bits16, Container::Wav);
    writer.write(&[0; 32]);
    assert_eq!(writer.frames(), 16);
    assert_eq!(writer.duration().as_secs(), 0);
    let (mut writer, _) = Writer::create(8, 1, Depth::Bits16, Container::Wav);
    writer.write(&[0; 13]);
    assert_eq!((writer.duration().secs, writer.duration().frames), (1, 5));
}

#[test]
fn samples_are_stored_lowest_byte_first() {
    let b = take(48_000, 1, Depth::Bits24, Container::Wav, &[1.0, -1.0]);
    assert_eq!(&b[44..], &[0xff, 0xff, 0x7f, 0x01, 0x00, 0x80]);
    let b = take(48_000, 1, Depth::Bits16, Container::Wav, &[1.0, -1.0]);
    assert_eq!(&b[44..], &[0xff, 0x7f, 0x01, 0x80]);
}

#[test]
fn a_fresh_file_has_only_a_header() {
    for (container, extra) in [
        (Container::Wav, 0),
        (Container::Bwf, 8 + BEXT_LEN),
        (Container::Rf64, 8 + DS64_LEN),
    ] {
        let (_, ops) = Writer::create(44_100, 2, Depth::Float32, container);
        let mut disk = Disk::new();
        disk.carry_out(ops);
        assert_eq!(disk.bytes.len() as u32, HEADER_LEN + extra);
        assert_eq!(container.data_size_at(), u64::from(HEADER_LEN + extra) - 4);
    }
}

#[test]
fn a_plain_file_stops_at_four_gigabytes() {
    let (writer, _) = Writer::create(48_000, 2, Depth::Float32, Container::Wav);
    assert!(writer.has_room(1 << 20));
    assert!(!writer.has_room(1 << 30));
    let (writer, _) = Writer::create(48_000, 2, Depth::Float32, Container::Rf64);
    assert!(writer.has_room(1 << 30));
    assert!(can_describe(48_000, 2, Depth::Float32));
    assert!(!can_describe(u32::MAX, 2, Depth::Float32));
}

#[test]
fn the_names_are_what_the_window_shows() {
    assert_eq!(Container::default(), Container::Wav);
    assert_eq!(Depth::default(), Depth::Bits16);
    assert_eq!(Container::Rf64.caption(), "RF64");
    assert_eq!(Container::Bwf.extension(), "wav");
    assert_eq!(Depth::Float32.caption(), "32 bits (float)");
    assert_eq!(Depth::Bits16.next().next().next(), Depth::Bits16);
    assert_eq!(Depth::Bits24.bits(), 24);
    assert_eq!(Depth::Bits24.bytes(), 3);
    assert_eq!(Depth::Float32.format_tag(), 3);
}
