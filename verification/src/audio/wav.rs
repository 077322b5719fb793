//! Writing a WAV file.
//!
//! Deliberately plain: uncompressed, no metadata. A recording is something
//! you take somewhere else, and every program that opens audio at all opens
//! this.
//!
//! Three sample formats, which is what the Recorder Options window offers:
//! 16- and 24-bit integer PCM, and 32-bit float. The float one is not just
//! a wider integer: it carries samples past full scale, which the mixer
//! really does produce when a strip is pushed, and which the integer
//! formats have to clip away.
//!
//! The header carries two lengths that are not known until the recording
//! stops. They are patched after every batch rather than only at the end, so
//! a take that is interrupted (the mixer killed, the machine losing power)
//! is still a correct file describing everything that reached the disk.
//!
//! That costs two seeks and eight bytes per batch, against a batch that is
//! thousands of samples. Writing them only at the end leaves a 2 MB file
//! claiming to be empty after a `SIGTERM`, which is exactly the case a
//! recording most needs to survive.
//!
//! What is to be done to the file is a list of [`Op`]s, for whoever holds it
//! to carry out in order.

use vstd::prelude::*;

use crate::bytes::{self, little, put_all, put_little, put_zeros};
use crate::text;

verus! {

/// Bytes into the file where the RIFF length sits, for a plain WAV.
pub const RIFF_SIZE_AT: u64 = 4;

/// Bytes into the file where the 64-bit lengths begin, for an RF64.
pub const LONG_SIZES_AT: u64 = 20;

/// Everything before the samples, for a plain WAV.
pub const HEADER_LEN: u32 = 44;

/// A Broadcast Wave description chunk, which is a fixed 602 bytes before
/// any coding history. We write it empty: the point of BWF here is that a
/// program expecting one will open the file, not that we have anything to
/// put in it.
pub const BEXT_LEN: u32 = 602;

/// `RF64`'s size chunk: three 64-bit lengths and an empty table.
pub const DS64_LEN: u32 = 28;

/// Which container the samples are wrapped in.
///
/// All three hold the same PCM in the same order and differ only in what
/// is written before it, which is why they share a writer. What they are
/// for differs: BWF is what a broadcast or post-production tool expects,
/// and RF64 is the one that does not stop at four gigabytes.
#[derive(Debug, Clone, Copy, PartialEq, Eq, Structural)]
pub enum Container {
    /// Plain RIFF/WAVE. Read by everything, and capped at 4 GB.
    Wav,
    /// RIFF/WAVE carrying a Broadcast Wave description chunk.
    Bwf,
    /// The 64-bit RIFF, for takes that outgrow a WAV.
    Rf64,
}

impl Default for Container {
    fn default() -> (container: Container)
        ensures
            container == Container::Wav,
    {
        Container::Wav
    }
}

/// How a container is written to the settings file.
pub open spec fn container_spelling(container: Container) -> Seq<char> {
    match container {
        Container::Wav => "wav"@,
        Container::Bwf => "bwf"@,
        Container::Rf64 => "rf64"@,
    }
}

/// The container a spelling stands for.
pub open spec fn container_spelt(s: Seq<char>) -> Container {
    if s == "bwf"@ {
        Container::Bwf
    } else if s == "rf64"@ {
        Container::Rf64
    } else {
        Container::Wav
    }
}

/// The container after another, round and round.
pub open spec fn container_after(container: Container) -> Container {
    match container {
        Container::Wav => Container::Bwf,
        Container::Bwf => Container::Rf64,
        Container::Rf64 => Container::Wav,
    }
}

/// How long a container's header is.
pub open spec fn header_size(container: Container) -> nat {
    match container {
        Container::Wav => HEADER_LEN as nat,
        Container::Bwf => (HEADER_LEN + 8 + BEXT_LEN) as nat,
        Container::Rf64 => (HEADER_LEN + 8 + DS64_LEN) as nat,
    }
}

impl Container {
    /// The file extension, without the dot.
    ///
    /// BWF and RF64 are both `.wav` by convention: they are WAV files, and a
    /// player that does not know the extra chunks skips them.
    #[must_use]
    pub fn extension(self) -> (r: &'static str)
        ensures
            r@ == "wav"@,
    {
        "wav"
    }

    /// How the Recorder Options window names it.
    #[must_use]
    pub fn caption(self) -> (r: &'static str)
        ensures
            r@ == (match self {
                Container::Wav => "WAV"@,
                Container::Bwf => "BWF"@,
                Container::Rf64 => "RF64"@,
            }),
    {
        match self {
            Container::Wav => "WAV",
            Container::Bwf => "BWF",
            Container::Rf64 => "RF64",
        }
    }

    /// How it is written to the settings file, and read back.
    #[must_use]
    pub fn as_str(self) -> (r: &'static str)
        ensures
            r@ == container_spelling(self),
    {
        match self {
            Container::Wav => "wav",
            Container::Bwf => "bwf",
            Container::Rf64 => "rf64",
        }
    }

    /// The other half of [`Container::as_str`]. Anything unrecognised is a
    /// plain WAV, which every program can read.
    #[must_use]
    pub fn parse(s: &str) -> (container: Container)
        ensures
            container == container_spelt(s@),
    {
        if text::same(s, "bwf") {
            Container::Bwf
        } else if text::same(s, "rf64") {
            Container::Rf64
        } else {
            Container::Wav
        }
    }

    /// The next one, for a box that cycles through them.
    #[must_use]
    pub fn next(self) -> (container: Container)
        ensures
            container == container_after(self),
    {
        match self {
            Container::Wav => Container::Bwf,
            Container::Bwf => Container::Rf64,
            Container::Rf64 => Container::Wav,
        }
    }

    /// Everything before the samples.
    #[must_use]
    pub fn header_len(self) -> (n: u32)
        ensures
            n == header_size(self),
    {
        match self {
            Container::Wav => HEADER_LEN,
            // The extra chunk, plus its own name and length.
            Container::Bwf => HEADER_LEN + 8 + BEXT_LEN,
            Container::Rf64 => HEADER_LEN + 8 + DS64_LEN,
        }
    }

    /// Where the data length sits: the last field of the header, whatever
    /// chunks came before it.
    #[must_use]
    pub fn data_size_at(self) -> (n: u64)
        ensures
            n == header_size(self) - 4,
    {
        self.header_len() as u64 - 4
    }
}

/// How a sample is stored.
#[derive(Debug, Clone, Copy, PartialEq, Eq, Structural)]
pub enum Depth {
    /// 16-bit integer: what every program reads, and the default.
    Bits16,
    /// 24-bit integer, for a take that will be worked on afterwards.
    Bits24,
    /// 32-bit float, which is the only one that survives a sample past
    /// full scale rather than clipping it.
    Float32,
}

impl Default for Depth {
    fn default() -> (depth: Depth)
        ensures
            depth == Depth::Bits16,
    {
        Depth::Bits16
    }
}

/// Bytes one sample takes.
pub open spec fn sample_size(depth: Depth) -> nat {
    match depth {
        Depth::Bits16 => 2,
        Depth::Bits24 => 3,
        Depth::Float32 => 4,
    }
}

/// The WAV format tag: 1 for integer PCM, 3 for IEEE float.
pub open spec fn tag(depth: Depth) -> nat {
    match depth {
        Depth::Float32 => 3,
        _ => 1,
    }
}

/// How a depth is written to the settings file.
pub open spec fn depth_spelling(depth: Depth) -> Seq<char> {
    match depth {
        Depth::Bits16 => "16"@,
        Depth::Bits24 => "24"@,
        Depth::Float32 => "32f"@,
    }
}

/// The depth a spelling stands for.
pub open spec fn depth_spelt(s: Seq<char>) -> Depth {
    if s == "24"@ {
        Depth::Bits24
    } else if s == "32f"@ {
        Depth::Float32
    } else {
        Depth::Bits16
    }
}

/// The depth after another, round and round.
pub open spec fn depth_after(depth: Depth) -> Depth {
    match depth {
        Depth::Bits16 => Depth::Bits24,
        Depth::Bits24 => Depth::Float32,
        Depth::Float32 => Depth::Bits16,
    }
}

impl Depth {
    /// Bytes one sample takes on disk.
    #[must_use]
    pub fn bytes(self) -> (n: u32)
        ensures
            n == sample_size(self),
    {
        match self {
            Depth::Bits16 => 2,
            Depth::Bits24 => 3,
            Depth::Float32 => 4,
        }
    }

    /// The `bits per sample` the header declares.
    #[must_use]
    pub fn bits(self) -> (n: u16)
        ensures
            n == sample_size(self) * 8,
    {
        match self {
            Depth::Bits16 => 16,
            Depth::Bits24 => 24,
            Depth::Float32 => 32,
        }
    }

    /// The WAV format tag: 1 for integer PCM, 3 for IEEE float.
    ///
    /// Getting this wrong is the difference between a file that opens and
    /// one that plays as noise, so it travels with the depth rather than
    /// being decided at the header.
    #[must_use]
    pub fn format_tag(self) -> (n: u16)
        ensures
            n == tag(self),
    {
        match self {
            Depth::Bits16 => 1,
            Depth::Bits24 => 1,
            Depth::Float32 => 3,
        }
    }

    /// How the Recorder Options window names it.
    #[must_use]
    pub fn caption(self) -> (r: &'static str)
        ensures
            r@ == (match self {
                Depth::Bits16 => "16 bits"@,
                Depth::Bits24 => "24 bits"@,
                Depth::Float32 => "32 bits (float)"@,
            }),
    {
        match self {
            Depth::Bits16 => "16 bits",
            Depth::Bits24 => "24 bits",
            Depth::Float32 => "32 bits (float)",
        }
    }

    /// How it is written to the settings file, and read back.
    #[must_use]
    pub fn as_str(self) -> (r: &'static str)
        ensures
            r@ == depth_spelling(self),
    {
        match self {
            Depth::Bits16 => "16",
            Depth::Bits24 => "24",
            Depth::Float32 => "32f",
        }
    }

    /// The other half of [`Depth::as_str`]. Anything unrecognised is 16-bit,
    /// which is the one every program can read.
    #[must_use]
    pub fn parse(s: &str) -> (depth: Depth)
        ensures
            depth == depth_spelt(s@),
    {
        if text::same(s, "24") {
            Depth::Bits24
        } else if text::same(s, "32f") {
            Depth::Float32
        } else {
            Depth::Bits16
        }
    }

    /// The next one, for a box that cycles through them.
    #[must_use]
    pub fn next(self) -> (depth: Depth)
        ensures
            depth == depth_after(self),
    {
        match self {
            Depth::Bits16 => Depth::Bits24,
            Depth::Bits24 => Depth::Float32,
            Depth::Float32 => Depth::Bits16,
        }
    }

    /// Put one sample behind others.
    ///
    /// `word` holds the sample in its lowest bits, as many as the depth
    /// has: the integer formats scaled to theirs, the float one as it is.
    pub fn encode(self, word: u32, into: &mut Vec<u8>)
        ensures
            final(into)@ == old(into)@ + little(word as nat, sample_size(self)),
    {
        put_little(into, word as u64, self.bytes() as usize);
    }
}

// ---------------------------------------------------------------------
// The header

/// `RIFF`.
pub open spec fn riff() -> Seq<u8> {
    seq![0x52, 0x49, 0x46, 0x46]
}

/// `RF64`.
pub open spec fn rf64() -> Seq<u8> {
    seq![0x52, 0x46, 0x36, 0x34]
}

/// `WAVE`.
pub open spec fn wave() -> Seq<u8> {
    seq![0x57, 0x41, 0x56, 0x45]
}

/// `bext`.
pub open spec fn bext() -> Seq<u8> {
    seq![0x62, 0x65, 0x78, 0x74]
}

/// `ds64`.
pub open spec fn ds64() -> Seq<u8> {
    seq![0x64, 0x73, 0x36, 0x34]
}

/// `fmt `.
pub open spec fn fmt() -> Seq<u8> {
    seq![0x66, 0x6d, 0x74, 0x20]
}

/// `data`.
pub open spec fn data() -> Seq<u8> {
    seq![0x64, 0x61, 0x74, 0x61]
}

/// What a take is written as.
pub struct Format {
    pub rate: u32,
    pub channels: u16,
    pub depth: Depth,
    pub container: Container,
}

impl Format {
    /// Bytes one frame takes.
    pub open spec fn frame(self) -> nat {
        self.channels as nat * sample_size(self.depth)
    }

    /// Whether the header can say what it has to.
    pub open spec fn fits(self) -> bool {
        self.rate as nat * self.frame() <= u32::MAX
    }

    /// Bytes that some frames take.
    pub open spec fn size(self, frames: nat) -> nat {
        frames * self.frame()
    }

    /// Whether the header can say how long the take is. A plain one has 32
    /// bits for it.
    pub open spec fn can_hold(self, frames: nat) -> bool {
        if self.container == Container::Rf64 {
            header_size(self.container) + self.size(frames) <= u64::MAX
        } else {
            header_size(self.container) + self.size(frames) <= u32::MAX
        }
    }
}

/// The format chunk, and the name of the data chunk behind it.
pub open spec fn format_chunk(f: Format) -> Seq<u8> {
    fmt() + little(16, 4) + little(tag(f.depth), 2) + little(f.channels as nat, 2) + little(
        f.rate as nat,
        4,
    ) + little(f.rate as nat * f.frame(), 4) + little(
        if f.frame() <= u16::MAX {
            f.frame()
        } else {
            4
        },
        2,
    ) + little(sample_size(f.depth) * 8, 2) + data()
}

/// The chunk a broadcast wave has before its format.
pub open spec fn description_chunk(container: Container) -> Seq<u8> {
    if container == Container::Bwf {
        bext() + little(BEXT_LEN as nat, 4) + Seq::new(BEXT_LEN as nat, |i: int| 0u8)
    } else {
        seq![]
    }
}

/// The lengths a header declares: of everything after the first eight
/// bytes, of the samples, and the frames they make. A plain header says the
/// first two in 32 bits.
pub struct Lengths {
    pub riff: nat,
    pub data: nat,
    pub frames: nat,
}

/// A header that declares some lengths.
pub open spec fn header(f: Format, lengths: Lengths) -> Seq<u8> {
    if f.container == Container::Rf64 {
        (rf64() + little(u32::MAX as nat, 4) + wave() + ds64() + little(DS64_LEN as nat, 4))
            + little(lengths.riff, 8) + little(lengths.data, 8) + little(lengths.frames, 8) + (
        little(0, 4) + format_chunk(f) + little(u32::MAX as nat, 4))
    } else {
        riff() + little(lengths.riff, 4) + (wave() + description_chunk(f.container) + format_chunk(
            f,
        )) + little(lengths.data, 4)
    }
}

/// The lengths before anything was written.
pub open spec fn no_lengths() -> Lengths {
    Lengths { riff: 0, data: 0, frames: 0 }
}

/// The lengths of a take.
pub open spec fn lengths_of(f: Format, frames: nat) -> Lengths {
    Lengths {
        riff: (header_size(f.container) + f.size(frames) - 8) as nat,
        data: f.size(frames),
        frames,
    }
}

/// A file that holds a take: its header and its samples.
pub open spec fn take_file(f: Format, frames: nat, samples: Seq<u8>) -> Seq<u8> {
    header(f, lengths_of(f, frames)) + samples
}

// ---------------------------------------------------------------------
// What is done to the file

/// Something to be done to a file.
#[derive(Debug)]
pub enum Op {
    /// Write bytes where the file stands, and move behind them.
    Put(Vec<u8>),
    /// Move to a place, counted from the beginning.
    Seek(u64),
}

/// Something to be done, as the contracts see it.
pub enum Step {
    Put(Seq<u8>),
    Seek(nat),
}

impl View for Op {
    type V = Step;

    open spec fn view(&self) -> Step {
        match *self {
            Op::Put(bytes) => Step::Put(bytes@),
            Op::Seek(at) => Step::Seek(at as nat),
        }
    }
}

/// A list of things to be done, as the contracts see it.
pub open spec fn steps(ops: Seq<Op>) -> Seq<Step> {
    ops.map_values(|op: Op| op@)
}

/// Samples as bytes.
pub open spec fn encoded(depth: Depth, words: Seq<u32>) -> Seq<u8>
    decreases words.len(),
{
    if words.len() == 0 {
        seq![]
    } else {
        encoded(depth, words.drop_last()) + little(words.last() as nat, sample_size(depth))
    }
}

/// Bringing the header's lengths up to date, and going back to the end.
pub open spec fn patches(f: Format, frames: nat) -> Seq<Step> {
    let lengths = lengths_of(f, frames);
    let head = header_size(f.container);
    if f.container == Container::Rf64 {
        seq![
            Step::Seek(LONG_SIZES_AT as nat),
            Step::Put(little(lengths.riff, 8)),
            Step::Put(little(lengths.data, 8)),
            Step::Put(little(lengths.frames, 8)),
            Step::Seek(head + lengths.data),
        ]
    } else {
        seq![
            Step::Seek(RIFF_SIZE_AT as nat),
            Step::Put(little(lengths.riff, 4)),
            Step::Seek((head - 4) as nat),
            Step::Put(little(lengths.data, 4)),
            Step::Seek(head + lengths.data),
        ]
    }
}

fn push_op(ops: &mut Vec<Op>, op: Op)
    ensures
        steps(final(ops)@) == steps(old(ops)@).push(op@),
{
    let ghost before = steps(ops@);
    ops.push(op);
    proof {
        assert(steps(ops@) =~= before.push(op@));
    }
}

fn put_format(into: &mut Vec<u8>, rate: u32, channels: u16, depth: Depth, container: Container)
    requires
        (Format { rate, channels, depth, container }).fits(),
    ensures
        final(into)@ == old(into)@ + format_chunk(Format { rate, channels, depth, container }),
{
    let ghost f = Format { rate, channels, depth, container };
    let ghost before = into@;
    proof {
        frame_is_small(channels, depth);
    }
    let frame: u32 = channels as u32 * depth.bytes();
    let align: u64 = if frame <= 0xffff {
        frame as u64
    } else {
        4
    };
    put_all(into, &[0x66, 0x6d, 0x74, 0x20]);
    put_little(into, 16, 4);
    put_little(into, depth.format_tag() as u64, 2);
    put_little(into, channels as u64, 2);
    put_little(into, rate as u64, 4);
    put_little(into, (rate * frame) as u64, 4);
    put_little(into, align, 2);
    put_little(into, depth.bits() as u64, 2);
    put_all(into, &[0x64, 0x61, 0x74, 0x61]);
    proof {
        assert(into@ =~= before + format_chunk(f));
    }
}

proof fn frame_is_small(channels: u16, depth: Depth)
    ensures
        channels as nat * sample_size(depth) <= 0x3_fffc,
{
    assert(channels as nat * sample_size(depth) <= 0x3_fffc) by (nonlinear_arith)
        requires
            channels <= 0xffff,
            sample_size(depth) <= 4,
    ;
}

/// Whether a header can say what a take is: its bytes per second have 32
/// bits.
pub fn can_describe(rate: u32, channels: u16, depth: Depth) -> (r: bool)
    ensures
        r == (rate as nat * (channels as nat * sample_size(depth)) <= u32::MAX),
{
    proof {
        frame_is_small(channels, depth);
    }
    let frame: u64 = channels as u64 * depth.bytes() as u64;
    proof {
        assert(rate as nat * frame as nat <= 0xffff_ffff * 0x4_0000) by (nonlinear_arith)
            requires
                rate <= 0xffff_ffff,
                frame <= 0x4_0000,
        ;
    }
    rate as u64 * frame <= 0xffff_ffff
}

/// The header of a take that has nothing in it yet.
pub fn write_header(rate: u32, channels: u16, depth: Depth, container: Container) -> (r: Vec<u8>)
    requires
        (Format { rate, channels, depth, container }).fits(),
    ensures
        r@ == header(Format { rate, channels, depth, container }, no_lengths()),
{
    let ghost f = Format { rate, channels, depth, container };
    let mut r: Vec<u8> = Vec::new();
    match container {
        Container::Rf64 => {
            // The 32-bit sizes read -1 and the real ones live in `ds64`.
            put_all(&mut r, &[0x52, 0x46, 0x36, 0x34]);
            put_little(&mut r, 0xffff_ffff, 4);
            put_all(&mut r, &[0x57, 0x41, 0x56, 0x45]);
            put_all(&mut r, &[0x64, 0x73, 0x36, 0x34]);
            put_little(&mut r, DS64_LEN as u64, 4);
            // riffSize, dataSize, sampleCount, then an empty chunk table.
            put_little(&mut r, 0, 8);
            put_little(&mut r, 0, 8);
            put_little(&mut r, 0, 8);
            put_little(&mut r, 0, 4);
            put_format(&mut r, rate, channels, depth, container);
            put_little(&mut r, 0xffff_ffff, 4);
        },
        _ => {
            put_all(&mut r, &[0x52, 0x49, 0x46, 0x46]);
            put_little(&mut r, 0, 4);
            put_all(&mut r, &[0x57, 0x41, 0x56, 0x45]);
            if let Container::Bwf = container {
                put_all(&mut r, &[0x62, 0x65, 0x78, 0x74]);
                put_little(&mut r, BEXT_LEN as u64, 4);
                put_zeros(&mut r, BEXT_LEN);
            }
            put_format(&mut r, rate, channels, depth, container);
            put_little(&mut r, 0, 4);
        },
    }
    proof {
        assert(r@ =~= header(f, no_lengths()));
    }
    r
}

/// A take being written.
#[derive(Debug)]
pub struct Writer {
    channels: u16,
    depth: Depth,
    container: Container,
    /// Sample frames written so far, for the header and for the elapsed
    /// time the deck shows.
    frames: u64,
    rate: u32,
}

/// How long a take is: whole seconds, and frames beyond them.
#[derive(Debug, Clone, Copy, PartialEq, Eq, Structural)]
pub struct Length {
    pub secs: u64,
    pub frames: u64,
}

impl Length {
    /// The whole seconds.
    pub fn as_secs(self) -> (secs: u64)
        ensures
            secs == self.secs,
    {
        self.secs
    }
}

/// How many frames some samples make. A take without channels counts each
/// sample.
pub open spec fn frames_in(samples: nat, channels: u16) -> nat {
    if channels == 0 {
        samples
    } else {
        samples / channels as nat
    }
}

impl Writer {
    /// What the take is written as.
    pub closed spec fn format(&self) -> Format {
        Format {
            rate: self.rate,
            channels: self.channels,
            depth: self.depth,
            container: self.container,
        }
    }

    /// The frames written so far.
    pub closed spec fn count(&self) -> nat {
        self.frames as nat
    }

    /// Begin a take: its header goes into the empty file.
    pub fn create(rate: u32, channels: u16, depth: Depth, container: Container) -> (r: (
        Writer,
        Vec<Op>,
    ))
        requires
            (Format { rate, channels, depth, container }).fits(),
        ensures
            r.0.format() == (Format { rate, channels, depth, container }),
            r.0.count() == 0,
            steps(r.1@) == seq![
                Step::Put(header(Format { rate, channels, depth, container }, no_lengths())),
            ],
    {
        let mut ops: Vec<Op> = Vec::new();
        push_op(&mut ops, Op::Put(write_header(rate, channels, depth, container)));
        proof {
            assert(steps(ops@) =~= seq![
                Step::Put(header(Format { rate, channels, depth, container }, no_lengths())),
            ]);
        }
        (Writer { channels, depth, container, frames: 0, rate }, ops)
    }

    /// Whether the header can still say how long the take is once some more
    /// samples are in it.
    pub fn has_room(&self, samples: usize) -> (r: bool)
        ensures
            r == ({
                let after = self.count() + frames_in(samples as nat, self.format().channels);
                self.format().can_hold(after) && after <= u64::MAX
            }),
    {
        proof {
            frame_is_small(self.channels, self.depth);
        }
        let frame: u128 = self.channels as u128 * self.depth.bytes() as u128;
        let more: u128 = if self.channels == 0 {
            samples as u128
        } else {
            samples as u128 / self.channels as u128
        };
        let after: u128 = self.frames as u128 + more;
        proof {
            assert(after <= 0x2_0000_0000_0000_0000);
            assert(after as nat * frame as nat <= 0x2_0000_0000_0000_0000 * 0x4_0000)
                by (nonlinear_arith)
                requires
                    after <= 0x2_0000_0000_0000_0000,
                    frame <= 0x4_0000,
            ;
        }
        let size: u128 = self.container.header_len() as u128 + after * frame;
        let most: u128 = if let Container::Rf64 = self.container {
            u64::MAX as u128
        } else {
            u32::MAX as u128
        };
        size <= most && after <= u64::MAX as u128
    }

    /// Append interleaved samples, each in the lowest bits of a word, in
    /// whatever format this file holds, and bring the lengths up to date.
    pub fn write(&mut self, words: &[u32]) -> (ops: Vec<Op>)
        requires
            old(self).format().can_hold(
                old(self).count() + frames_in(words@.len(), old(self).format().channels),
            ),
            old(self).count() + frames_in(words@.len(), old(self).format().channels) <= u64::MAX,
        ensures
            final(self).format() == old(self).format(),
            final(self).count() == old(self).count() + frames_in(
                words@.len(),
                old(self).format().channels,
            ),
            steps(ops@) == seq![Step::Put(encoded(old(self).format().depth, words@))] + patches(
                old(self).format(),
                final(self).count(),
            ),
    {
        let mut bytes: Vec<u8> = Vec::new();
        let depth = self.depth;
        for i in 0..words.len()
            invariant
                bytes@ == encoded(depth, words@.take(i as int)),
        {
            depth.encode(words[i], &mut bytes);
            proof {
                assert(words@.take(i + 1).drop_last() =~= words@.take(i as int));
                assert(words@.take(i + 1).last() == words@[i as int]);
            }
        }
        proof {
            assert(words@.take(words@.len() as int) =~= words@);
        }
        let more: u64 = if self.channels == 0 {
            words.len() as u64
        } else {
            words.len() as u64 / self.channels as u64
        };
        self.frames = self.frames + more;
        let mut ops: Vec<Op> = Vec::new();
        push_op(&mut ops, Op::Put(bytes));
        let ghost before = steps(ops@);
        self.patch_lengths(&mut ops);
        proof {
            assert(before =~= seq![Step::Put(encoded(depth, words@))]);
        }
        ops
    }

    /// Bring the header's lengths up to date with what has been written.
    ///
    /// `RF64` keeps its real lengths in the `ds64` chunk and leaves the
    /// 32-bit ones reading -1 forever, which is the whole point of it: a
    /// take longer than four gigabytes cannot say its own size in 32 bits.
    fn patch_lengths(&self, ops: &mut Vec<Op>)
        requires
            self.format().can_hold(self.count()),
        ensures
            steps(final(ops)@) == steps(old(ops)@) + patches(self.format(), self.count()),
    {
        let ghost before = steps(ops@);
        let ghost f = self.format();
        proof {
            frame_is_small(f.channels, f.depth);
            assert(f.size(self.count()) == self.frames as nat * f.frame());
            assert(f.frame() > 0 ==> self.frames as nat <= f.size(self.count())) by (nonlinear_arith)
                requires
                    f.size(self.count()) == self.frames as nat * f.frame(),
            ;
        }
        let header = self.container.header_len() as u64;
        let frame: u64 = self.channels as u64 * self.depth.bytes() as u64;
        let data: u64 = self.frames * frame;
        if let Container::Rf64 = self.container {
            // riffSize, dataSize and sampleCount, in that order.
            push_op(ops, Op::Seek(LONG_SIZES_AT));
            push_op(ops, Op::Put(bytes::little_bytes(header + data - 8, 8)));
            push_op(ops, Op::Put(bytes::little_bytes(data, 8)));
            push_op(ops, Op::Put(bytes::little_bytes(self.frames, 8)));
        } else {
            push_op(ops, Op::Seek(RIFF_SIZE_AT));
            push_op(ops, Op::Put(bytes::little_bytes(data + header - 8, 4)));
            push_op(ops, Op::Seek(self.container.data_size_at()));
            push_op(ops, Op::Put(bytes::little_bytes(data, 4)));
        }
        push_op(ops, Op::Seek(header + data));
        proof {
            assert(steps(ops@) =~= before + patches(f, self.count()));
        }
    }

    /// Frames written so far.
    #[must_use]
    pub fn frames(&self) -> (n: u64)
        ensures
            n == self.count(),
    {
        self.frames
    }

    /// How long the recording is so far.
    #[must_use]
    pub fn duration(&self) -> (r: Length)
        ensures
            self.format().rate == 0 ==> r == (Length { secs: 0, frames: 0 }),
            self.format().rate > 0 ==> {
                &&& r.secs == self.count() / self.format().rate as nat
                &&& r.frames == self.count() % self.format().rate as nat
            },
    {
        if self.rate == 0 {
            return Length { secs: 0, frames: 0 };
        }
        Length { secs: self.frames / self.rate as u64, frames: self.frames % self.rate as u64 }
    }

    /// Patch the lengths in the header once more. The file can then be
    /// closed.
    pub fn finish(self) -> (ops: Vec<Op>)
        requires
            self.format().can_hold(self.count()),
        ensures
            steps(ops@) == patches(self.format(), self.count()),
    {
        let mut ops: Vec<Op> = Vec::new();
        let ghost before = steps(ops@);
        self.patch_lengths(&mut ops);
        proof {
            assert(before + patches(self.format(), self.count()) =~= patches(
                self.format(),
                self.count(),
            ));
        }
        ops
    }
}

// ---------------------------------------------------------------------
// Laws

/// A file as it stands: what it holds, and where the next byte goes.
pub struct Disk {
    pub bytes: Seq<u8>,
    pub at: nat,
}

/// The bytes of a file after some were written at a place. Where the place
/// is past the end, what lies between is zero.
pub open spec fn overlaid(bytes: Seq<u8>, at: nat, piece: Seq<u8>) -> Seq<u8> {
    Seq::new(
        if at + piece.len() > bytes.len() {
            at + piece.len()
        } else {
            bytes.len()
        },
        |i: int|
            if at <= i < at + piece.len() {
                piece[i - at]
            } else if i < bytes.len() {
                bytes[i]
            } else {
                0
            },
    )
}

/// A file after something was done to it.
pub open spec fn done(disk: Disk, step: Step) -> Disk {
    match step {
        Step::Put(piece) => Disk {
            bytes: overlaid(disk.bytes, disk.at, piece),
            at: disk.at + piece.len(),
        },
        Step::Seek(at) => Disk { bytes: disk.bytes, at },
    }
}

/// A file after a list of things was done to it.
pub open spec fn all_done(disk: Disk, steps: Seq<Step>) -> Disk
    decreases steps.len(),
{
    if steps.len() == 0 {
        disk
    } else {
        done(all_done(disk, steps.drop_last()), steps.last())
    }
}

proof fn overlaid_middle(a: Seq<u8>, p: Seq<u8>, b: Seq<u8>, q: Seq<u8>)
    requires
        p.len() == q.len(),
    ensures
        overlaid(a + p + b, a.len(), q) == a + q + b,
{
    assert(overlaid(a + p + b, a.len(), q) =~= a + q + b);
}

proof fn format_len(f: Format)
    ensures
        format_chunk(f).len() == 28,
{
    bytes::little_len(16, 4);
    bytes::little_len(tag(f.depth), 2);
    bytes::little_len(f.channels as nat, 2);
    bytes::little_len(f.rate as nat, 4);
    bytes::little_len(f.rate as nat * f.frame(), 4);
    bytes::little_len(
        if f.frame() <= u16::MAX {
            f.frame()
        } else {
            4
        },
        2,
    );
    bytes::little_len(sample_size(f.depth) * 8, 2);
}

/// A header is as long as it promises, whatever it declares.
pub proof fn headers_keep_their_promise(f: Format, lengths: Lengths)
    ensures
        header(f, lengths).len() == header_size(f.container),
{
    format_len(f);
    bytes::little_len(lengths.riff, 4);
    bytes::little_len(lengths.data, 4);
    bytes::little_len(lengths.riff, 8);
    bytes::little_len(lengths.data, 8);
    bytes::little_len(lengths.frames, 8);
    bytes::little_len(u32::MAX as nat, 4);
    bytes::little_len(DS64_LEN as nat, 4);
    bytes::little_len(BEXT_LEN as nat, 4);
    bytes::little_len(0, 4);
}

/// Five things done to a file, one by one.
proof fn five_steps(start: Disk, todo: Seq<Step>)
    requires
        todo.len() == 5,
    ensures
        all_done(start, todo) == done(
            done(done(done(done(start, todo[0]), todo[1]), todo[2]), todo[3]),
            todo[4],
        ),
{
    let s1 = todo.drop_last();
    let s2 = s1.drop_last();
    let s3 = s2.drop_last();
    let s4 = s3.drop_last();
    let s5 = s4.drop_last();
    assert(s5.len() == 0);
    assert(all_done(start, s5) == start);
    assert(all_done(start, s4) == done(start, todo[0]));
    assert(all_done(start, s3) == done(all_done(start, s4), todo[1]));
    assert(all_done(start, s2) == done(all_done(start, s3), todo[2]));
    assert(all_done(start, s1) == done(all_done(start, s2), todo[3]));
}

/// Three lengths behind each other are changed one by one.
proof fn three_overlaid(
    head: Seq<u8>,
    was: (Seq<u8>, Seq<u8>, Seq<u8>),
    now: (Seq<u8>, Seq<u8>, Seq<u8>),
    tail: Seq<u8>,
)
    requires
        was.0.len() == 8 && was.1.len() == 8 && was.2.len() == 8,
        now.0.len() == 8 && now.1.len() == 8 && now.2.len() == 8,
    ensures
        ({
            let n = head.len();
            let first = overlaid(head + was.0 + was.1 + was.2 + tail, n, now.0);
            let second = overlaid(first, n + 8, now.1);
            overlaid(second, n + 16, now.2) == head + now.0 + now.1 + now.2 + tail
        }),
{
    let (r0, a0, c0) = was;
    let (r1, a1, c1) = now;
    assert(head + r0 + a0 + c0 + tail =~= head + r0 + (a0 + c0 + tail));
    overlaid_middle(head, r0, a0 + c0 + tail, r1);
    assert(head + r1 + (a0 + c0 + tail) =~= (head + r1) + a0 + (c0 + tail));
    overlaid_middle(head + r1, a0, c0 + tail, a1);
    assert((head + r1) + a1 + (c0 + tail) =~= (head + r1 + a1) + c0 + tail);
    overlaid_middle(head + r1 + a1, c0, tail, c1);
}

/// Two lengths with something between them are changed one by one.
proof fn two_overlaid(
    head: Seq<u8>,
    was: (Seq<u8>, Seq<u8>),
    now: (Seq<u8>, Seq<u8>),
    mid: Seq<u8>,
    tail: Seq<u8>,
)
    requires
        was.0.len() == 4 && was.1.len() == 4,
        now.0.len() == 4 && now.1.len() == 4,
    ensures
        ({
            let n = head.len();
            let first = overlaid(head + was.0 + mid + was.1 + tail, n, now.0);
            overlaid(first, n + 4 + mid.len(), now.1) == head + now.0 + mid + now.1 + tail
        }),
{
    let (r0, a0) = was;
    let (r1, a1) = now;
    assert(head + r0 + mid + a0 + tail =~= head + r0 + (mid + a0 + tail));
    overlaid_middle(head, r0, mid + a0 + tail, r1);
    assert(head + r1 + (mid + a0 + tail) =~= (head + r1 + mid) + a0 + tail);
    overlaid_middle(head + r1 + mid, a0, tail, a1);
}

/// What stands before the lengths of a long header.
spec fn long_head() -> Seq<u8> {
    rf64() + little(u32::MAX as nat, 4) + wave() + ds64() + little(DS64_LEN as nat, 4)
}

/// What stands behind the lengths of a long header.
spec fn long_tail(f: Format) -> Seq<u8> {
    little(0, 4) + format_chunk(f) + little(u32::MAX as nat, 4)
}

/// A long header is its lengths and what stands round them.
proof fn a_long_header_parts(f: Format, lengths: Lengths, samples: Seq<u8>)
    requires
        f.container == Container::Rf64,
    ensures
        long_head().len() == LONG_SIZES_AT,
        header(f, lengths) + samples == long_head() + little(lengths.riff, 8) + little(
            lengths.data,
            8,
        ) + little(lengths.frames, 8) + (long_tail(f) + samples),
{
    bytes::little_len(u32::MAX as nat, 4);
    bytes::little_len(DS64_LEN as nat, 4);
    assert(header(f, lengths) + samples =~= long_head() + little(lengths.riff, 8) + little(
        lengths.data,
        8,
    ) + little(lengths.frames, 8) + (long_tail(f) + samples));
}

/// What stands between the lengths of a plain header.
spec fn plain_middle(f: Format) -> Seq<u8> {
    wave() + description_chunk(f.container) + format_chunk(f)
}

/// A plain header is its lengths and what stands before and between them.
proof fn a_plain_header_parts(f: Format, lengths: Lengths, samples: Seq<u8>)
    requires
        f.container != Container::Rf64,
    ensures
        riff().len() == RIFF_SIZE_AT,
        RIFF_SIZE_AT + 4 + plain_middle(f).len() == header_size(f.container) - 4,
        header(f, lengths) + samples == riff() + little(lengths.riff, 4) + plain_middle(f)
            + little(lengths.data, 4) + samples,
{
    bytes::little_len(lengths.riff, 4);
    bytes::little_len(lengths.data, 4);
    headers_keep_their_promise(f, lengths);
    assert(header(f, lengths) + samples =~= riff() + little(lengths.riff, 4) + plain_middle(f)
        + little(lengths.data, 4) + samples);
}

/// Patching a header changes the lengths it declares, leaves the samples
/// alone, and goes back to behind them.
proof fn patching_declares(f: Format, was: Lengths, frames: nat, samples: Seq<u8>, at: nat)
    ensures
        all_done(Disk { bytes: header(f, was) + samples, at }, patches(f, frames)) == (Disk {
            bytes: take_file(f, frames, samples),
            at: header_size(f.container) + f.size(frames),
        }),
{
    let now = lengths_of(f, frames);
    let start = Disk { bytes: header(f, was) + samples, at };
    five_steps(start, patches(f, frames));
    if f.container == Container::Rf64 {
        bytes::little_len(was.riff, 8);
        bytes::little_len(was.data, 8);
        bytes::little_len(was.frames, 8);
        bytes::little_len(now.riff, 8);
        bytes::little_len(now.data, 8);
        bytes::little_len(now.frames, 8);
        a_long_header_parts(f, was, samples);
        a_long_header_parts(f, now, samples);
        three_overlaid(
            long_head(),
            (little(was.riff, 8), little(was.data, 8), little(was.frames, 8)),
            (little(now.riff, 8), little(now.data, 8), little(now.frames, 8)),
            long_tail(f) + samples,
        );
    } else {
        bytes::little_len(was.riff, 4);
        bytes::little_len(was.data, 4);
        bytes::little_len(now.riff, 4);
        bytes::little_len(now.data, 4);
        a_plain_header_parts(f, was, samples);
        a_plain_header_parts(f, now, samples);
        two_overlaid(
            riff(),
            (little(was.riff, 4), little(was.data, 4)),
            (little(now.riff, 4), little(now.data, 4)),
            plain_middle(f),
            samples,
        );
    }
}

proof fn encoded_len(depth: Depth, words: Seq<u32>)
    ensures
        encoded(depth, words).len() == words.len() * sample_size(depth),
    decreases words.len(),
{
    if words.len() > 0 {
        encoded_len(depth, words.drop_last());
        bytes::little_len(words.last() as nat, sample_size(depth));
        assert(words.len() * sample_size(depth) == words.drop_last().len() * sample_size(depth)
            + sample_size(depth)) by (nonlinear_arith)
            requires
                words.len() == words.drop_last().len() + 1,
        ;
    }
}

/// What is done after a first step is done to what it left.
proof fn first_then_rest(disk: Disk, first: Step, rest: Seq<Step>)
    ensures
        all_done(disk, seq![first] + rest) == all_done(done(disk, first), rest),
    decreases rest.len(),
{
    let all = seq![first] + rest;
    if rest.len() == 0 {
        assert(all.drop_last() =~= Seq::<Step>::empty());
        assert(all_done(disk, all.drop_last()) == disk);
    } else {
        assert(all.drop_last() =~= seq![first] + rest.drop_last());
        first_then_rest(disk, first, rest.drop_last());
    }
}

/// After every batch the file holds everything that was written and says
/// so: whatever its header declared before, it now declares all the frames
/// there are, and the next batch goes behind them. So a take that stops at
/// any batch is a correct file.
pub proof fn a_take_always_declares_what_it_holds(
    f: Format,
    was: Lengths,
    frames: nat,
    samples: Seq<u8>,
    words: Seq<u32>,
)
    requires
        f.channels > 0,
        words.len() % f.channels as nat == 0,
        samples.len() == f.size(frames),
    ensures
        ({
            let more = frames_in(words.len(), f.channels);
            let written = samples + encoded(f.depth, words);
            &&& written.len() == f.size(frames + more)
            &&& all_done(
                Disk {
                    bytes: header(f, was) + samples,
                    at: header_size(f.container) + samples.len(),
                },
                seq![Step::Put(encoded(f.depth, words))] + patches(f, frames + more),
            ) == (Disk {
                bytes: take_file(f, frames + more, written),
                at: header_size(f.container) + written.len(),
            })
        }),
{
    let more = frames_in(words.len(), f.channels);
    let new = encoded(f.depth, words);
    let written = samples + new;
    let start = Disk {
        bytes: header(f, was) + samples,
        at: header_size(f.container) + samples.len(),
    };
    encoded_len(f.depth, words);
    headers_keep_their_promise(f, was);
    vstd::arithmetic::div_mod::lemma_fundamental_div_mod(
        words.len() as int,
        f.channels as int,
    );
    assert(words.len() * sample_size(f.depth) == more * f.frame()) by (nonlinear_arith)
        requires
            words.len() == f.channels as nat * more,
            f.frame() == f.channels as nat * sample_size(f.depth),
    ;
    assert(f.size(frames + more) == f.size(frames) + more * f.frame()) by (nonlinear_arith)
        requires
            f.size(frames + more) == (frames + more) * f.frame(),
            f.size(frames) == frames * f.frame(),
    ;
    first_then_rest(start, Step::Put(new), patches(f, frames + more));
    let next = done(start, Step::Put(new));
    assert(next.bytes =~= header(f, was) + written);
    patching_declares(f, was, frames + more, written, next.at);
}

/// Finishing a take leaves it as the last batch did.
pub proof fn finishing_changes_nothing(f: Format, frames: nat, samples: Seq<u8>, at: nat)
    requires
        samples.len() == f.size(frames),
    ensures
        all_done(Disk { bytes: take_file(f, frames, samples), at }, patches(f, frames)).bytes
            == take_file(f, frames, samples),
{
    patching_declares(f, lengths_of(f, frames), frames, samples, at);
}

/// A plain take's header declares the length of its samples where a player
/// looks for it, and that of the whole file before it.
pub proof fn a_header_says_how_long_it_is(f: Format, frames: nat, samples: Seq<u8>)
    requires
        f.container != Container::Rf64,
        samples.len() == f.size(frames),
        f.can_hold(frames),
    ensures
        ({
            let file = take_file(f, frames, samples);
            let head = header_size(f.container) as int;
            &&& bytes::amount(file.subrange(head - 4, head)) == samples.len()
            &&& bytes::amount(file.subrange(4, 8)) == file.len() - 8
        }),
{
    let now = lengths_of(f, frames);
    let file = take_file(f, frames, samples);
    let head = header_size(f.container) as int;
    headers_keep_their_promise(f, now);
    assert(bytes::limit(4) == 0x1_0000_0000) by {
        reveal_with_fuel(bytes::limit, 5);
    }
    bytes::a_written_number_reads_back(now.data, 4);
    bytes::a_written_number_reads_back(now.riff, 4);
    assert(file.subrange(head - 4, head) =~= little(now.data, 4));
    assert(file.subrange(4, 8) =~= little(now.riff, 4));
}

/// An RF64's header declares its lengths and its frames in 64 bits, and its
/// 32-bit lengths stay at -1.
pub proof fn a_long_header_says_how_long_it_is(f: Format, frames: nat, samples: Seq<u8>)
    requires
        f.container == Container::Rf64,
        samples.len() == f.size(frames),
        f.can_hold(frames),
        frames <= u64::MAX,
    ensures
        ({
            let file = take_file(f, frames, samples);
            &&& bytes::amount(file.subrange(20, 28)) == file.len() - 8
            &&& bytes::amount(file.subrange(28, 36)) == samples.len()
            &&& bytes::amount(file.subrange(36, 44)) == frames
            &&& bytes::amount(file.subrange(4, 8)) == u32::MAX
            &&& bytes::amount(file.subrange(76, 80)) == u32::MAX
        }),
{
    let now = lengths_of(f, frames);
    let file = take_file(f, frames, samples);
    headers_keep_their_promise(f, now);
    format_len(f);
    assert(bytes::limit(4) == 0x1_0000_0000) by {
        reveal_with_fuel(bytes::limit, 5);
    }
    assert(bytes::limit(8) == 0x1_0000_0000_0000_0000) by {
        reveal_with_fuel(bytes::limit, 9);
    }
    bytes::a_written_number_reads_back(now.data, 8);
    bytes::a_written_number_reads_back(now.riff, 8);
    bytes::a_written_number_reads_back(now.frames, 8);
    bytes::a_written_number_reads_back(u32::MAX as nat, 4);
    bytes::little_len(DS64_LEN as nat, 4);
    bytes::little_len(0, 4);
    assert(file.subrange(20, 28) =~= little(now.riff, 8));
    assert(file.subrange(28, 36) =~= little(now.data, 8));
    assert(file.subrange(36, 44) =~= little(now.frames, 8));
    assert(file.subrange(4, 8) =~= little(u32::MAX as nat, 4));
    assert(file.subrange(76, 80) =~= little(u32::MAX as nat, 4));
}

/// Every container reads back from its spelling.
pub proof fn container_spellings_round_trip(container: Container)
    ensures
        container_spelt(container_spelling(container)) == container,
{
    reveal_strlit("wav");
    reveal_strlit("bwf");
    reveal_strlit("rf64");
    assert("wav"@[0] != "bwf"@[0]);
    assert("wav"@.len() != "rf64"@.len());
    assert("bwf"@.len() != "rf64"@.len());
}

/// Every depth reads back from its spelling.
pub proof fn depth_spellings_round_trip(depth: Depth)
    ensures
        depth_spelt(depth_spelling(depth)) == depth,
{
    reveal_strlit("16");
    reveal_strlit("24");
    reveal_strlit("32f");
    assert("16"@[0] != "24"@[0]);
    assert("16"@.len() != "32f"@.len());
    assert("24"@.len() != "32f"@.len());
}

/// Three steps through the containers, or the depths, come back round.
pub proof fn cycling_comes_back_round(container: Container, depth: Depth)
    ensures
        container_after(container_after(container_after(container))) == container,
        depth_after(depth_after(depth_after(depth))) == depth,
        container_after(container) != container,
        depth_after(depth) != depth,
{
}

/// How many bytes one frame of a take is, said by its channels and its depth
/// alone.
pub open spec fn bytes_in_a_frame(f: Format) -> nat {
    f.channels as nat * (match f.depth {
        Depth::Bits16 => 2nat,
        Depth::Bits24 => 3,
        Depth::Float32 => 4,
    })
}

/// Where the format chunk stands in a container's header.
pub open spec fn format_at(container: Container) -> int {
    match container {
        Container::Wav => 12,
        Container::Bwf => 622,
        Container::Rf64 => 48,
    }
}

/// Whether a header's format chunk, which begins at a place, reads back as a
/// format: a chunk of sixteen bytes that gives the tag, the channels, the
/// rate, the bytes in a second, the bytes in a frame and the bits in a
/// sample, and the data's name behind it.
pub open spec fn reads_as(h: Seq<u8>, at: int, f: Format) -> bool {
    &&& h.subrange(at, at + 4) == seq![0x66u8, 0x6d, 0x74, 0x20]
    &&& bytes::amount(h.subrange(at + 4, at + 8)) == 16
    &&& bytes::amount(h.subrange(at + 8, at + 10)) == (if f.depth == Depth::Float32 {
        3nat
    } else {
        1
    })
    &&& bytes::amount(h.subrange(at + 10, at + 12)) == f.channels
    &&& bytes::amount(h.subrange(at + 12, at + 16)) == f.rate
    &&& bytes::amount(h.subrange(at + 16, at + 20)) == f.rate * bytes_in_a_frame(f)
    &&& bytes_in_a_frame(f) <= u16::MAX ==> bytes::amount(h.subrange(at + 20, at + 22))
        == bytes_in_a_frame(f)
    &&& bytes_in_a_frame(f) > u16::MAX ==> bytes::amount(h.subrange(at + 20, at + 22)) == 4
    &&& bytes::amount(h.subrange(at + 22, at + 24)) == (match f.depth {
        Depth::Bits16 => 16nat,
        Depth::Bits24 => 24,
        Depth::Float32 => 32,
    })
    &&& h.subrange(at + 24, at + 28) == seq![0x64u8, 0x61, 0x74, 0x61]
}

/// A format chunk reads back, field by field.
proof fn a_format_chunk_reads_back(f: Format)
    requires
        f.rate as nat * bytes_in_a_frame(f) <= u32::MAX,
    ensures
        reads_as(format_chunk(f), 0, f),
        format_chunk(f).len() == 28,
{
    let c = format_chunk(f);
    let frame = f.frame();
    assert(frame == bytes_in_a_frame(f));
    let short = if frame <= u16::MAX {
        frame
    } else {
        4
    };
    assert(bytes::limit(4) == 0x1_0000_0000 && bytes::limit(2) == 0x1_0000) by {
        reveal_with_fuel(bytes::limit, 5);
    }
    bytes::a_written_number_reads_back(16, 4);
    bytes::a_written_number_reads_back(tag(f.depth), 2);
    bytes::a_written_number_reads_back(f.channels as nat, 2);
    bytes::a_written_number_reads_back(f.rate as nat, 4);
    bytes::a_written_number_reads_back(f.rate as nat * frame, 4);
    bytes::a_written_number_reads_back(short, 2);
    bytes::a_written_number_reads_back(sample_size(f.depth) * 8, 2);
    assert(c.subrange(0, 4) =~= fmt());
    assert(c.subrange(4, 8) =~= little(16, 4));
    assert(c.subrange(8, 10) =~= little(tag(f.depth), 2));
    assert(c.subrange(10, 12) =~= little(f.channels as nat, 2));
    assert(c.subrange(12, 16) =~= little(f.rate as nat, 4));
    assert(c.subrange(16, 20) =~= little(f.rate as nat * frame, 4));
    assert(c.subrange(20, 22) =~= little(short, 2));
    assert(c.subrange(22, 24) =~= little(sample_size(f.depth) * 8, 2));
    assert(c.subrange(24, 28) =~= data());
}

/// What a chunk says, it says wherever it stands.
proof fn a_chunk_reads_the_same_anywhere(h: Seq<u8>, at: int, chunk: Seq<u8>, f: Format)
    requires
        0 <= at <= at + 28 <= h.len(),
        chunk == h.subrange(at, at + 28),
        reads_as(chunk, 0, f),
    ensures
        reads_as(h, at, f),
{
    assert(h.subrange(at, at + 4) =~= chunk.subrange(0, 4));
    assert(h.subrange(at + 4, at + 8) =~= chunk.subrange(4, 8));
    assert(h.subrange(at + 8, at + 10) =~= chunk.subrange(8, 10));
    assert(h.subrange(at + 10, at + 12) =~= chunk.subrange(10, 12));
    assert(h.subrange(at + 12, at + 16) =~= chunk.subrange(12, 16));
    assert(h.subrange(at + 16, at + 20) =~= chunk.subrange(16, 20));
    assert(h.subrange(at + 20, at + 22) =~= chunk.subrange(20, 22));
    assert(h.subrange(at + 22, at + 24) =~= chunk.subrange(22, 24));
    assert(h.subrange(at + 24, at + 28) =~= chunk.subrange(24, 28));
}

/// Every field of a take's format reads back from its header, in every
/// container, whatever the take's length, and behind the header nothing of
/// it is disturbed.
pub proof fn every_field_of_the_format_reads_back(f: Format, lengths: Lengths, samples: Seq<u8>)
    requires
        f.rate as nat * bytes_in_a_frame(f) <= u32::MAX,
    ensures
        reads_as(header(f, lengths) + samples, format_at(f.container), f),
{
    let file = header(f, lengths) + samples;
    let at = format_at(f.container);
    let chunk = format_chunk(f);
    a_format_chunk_reads_back(f);
    headers_keep_their_promise(f, lengths);
    bytes::little_len(lengths.riff, 4);
    bytes::little_len(lengths.riff, 8);
    bytes::little_len(lengths.data, 4);
    bytes::little_len(lengths.data, 8);
    bytes::little_len(lengths.frames, 8);
    bytes::little_len(u32::MAX as nat, 4);
    bytes::little_len(DS64_LEN as nat, 4);
    bytes::little_len(BEXT_LEN as nat, 4);
    bytes::little_len(0, 4);
    if f.container == Container::Rf64 {
        a_long_header_parts(f, lengths, samples);
        let tail = little(0, 4) + chunk + little(u32::MAX as nat, 4);
        assert(tail.subrange(4, 32) =~= chunk);
        assert(file.subrange(at, at + 28) =~= tail.subrange(4, 32));
    } else {
        a_plain_header_parts(f, lengths, samples);
        let middle = wave() + description_chunk(f.container) + chunk;
        assert(middle.subrange(at - 8, at + 20) =~= chunk);
        assert(file.subrange(at, at + 28) =~= middle.subrange(at - 8, at + 20));
    }
    a_chunk_reads_the_same_anywhere(file, at, chunk, f);
}

/// A file says what it is at its beginning: a RIFF, or the 64-bit form of
/// one, that holds a WAVE. A broadcast file has an empty description of its
/// own length first, and a long one its table of lengths with nothing listed
/// in it.
pub proof fn a_file_says_what_it_is(f: Format, lengths: Lengths)
    ensures
        ({
            let h = header(f, lengths);
            let long = f.container == Container::Rf64;
            &&& long ==> h.subrange(0, 4) == seq![0x52u8, 0x46, 0x36, 0x34]
            &&& !long ==> h.subrange(0, 4) == seq![0x52u8, 0x49, 0x46, 0x46]
            &&& h.subrange(8, 12) == seq![0x57u8, 0x41, 0x56, 0x45]
            &&& f.container == Container::Wav ==> h.len() == 44
            &&& f.container == Container::Bwf ==> {
                &&& h.len() == 654
                &&& h.subrange(12, 16) == seq![0x62u8, 0x65, 0x78, 0x74]
                &&& bytes::amount(h.subrange(16, 20)) == 602
                &&& forall|i: int| 20 <= i < 622 ==> #[trigger] h[i] == 0
            }
            &&& long ==> {
                &&& h.len() == 80
                &&& h.subrange(12, 16) == seq![0x64u8, 0x73, 0x36, 0x34]
                &&& bytes::amount(h.subrange(16, 20)) == 28
                &&& bytes::amount(h.subrange(44, 48)) == 0
            }
        }),
{
    let h = header(f, lengths);
    headers_keep_their_promise(f, lengths);
    bytes::little_len(lengths.riff, 4);
    bytes::little_len(lengths.riff, 8);
    bytes::little_len(lengths.data, 4);
    bytes::little_len(lengths.data, 8);
    bytes::little_len(lengths.frames, 8);
    bytes::little_len(u32::MAX as nat, 4);
    assert(bytes::limit(4) == 0x1_0000_0000) by {
        reveal_with_fuel(bytes::limit, 5);
    }
    bytes::a_written_number_reads_back(DS64_LEN as nat, 4);
    bytes::a_written_number_reads_back(BEXT_LEN as nat, 4);
    bytes::a_written_number_reads_back(0, 4);
    format_len(f);
    if f.container == Container::Rf64 {
        assert(h.subrange(0, 4) =~= rf64());
        assert(h.subrange(8, 12) =~= wave());
        assert(h.subrange(12, 16) =~= ds64());
        assert(h.subrange(16, 20) =~= little(DS64_LEN as nat, 4));
        assert(h.subrange(44, 48) =~= little(0, 4));
    } else {
        assert(h.subrange(0, 4) =~= riff());
        assert(h.subrange(8, 12) =~= wave());
        if f.container == Container::Bwf {
            let d = description_chunk(f.container);
            assert(d.len() == 610);
            assert(h.subrange(12, 622) =~= d);
            assert(d.subrange(0, 4) =~= bext());
            assert(d.subrange(4, 8) =~= little(BEXT_LEN as nat, 4));
            assert(h.subrange(12, 16) =~= d.subrange(0, 4));
            assert(h.subrange(16, 20) =~= d.subrange(4, 8));
            assert forall|i: int| 20 <= i < 622 implies #[trigger] h[i] == 0 by {
                assert(h[i] == h.subrange(12, 622)[i - 12]);
                assert(d[i - 12] == 0);
            }
        }
    }
}

/// A take has room exactly as long as its whole file can be said in the
/// lengths its container has: four bytes, or eight in a long one.
pub proof fn room_is_what_the_lengths_can_say(f: Format, frames: nat)
    ensures
        f.can_hold(frames) == (header(f, lengths_of(f, frames)).len() + frames * bytes_in_a_frame(f)
            <= (if f.container == Container::Rf64 {
            u64::MAX as nat
        } else {
            u32::MAX as nat
        })),
        f.fits() == (f.rate as nat * bytes_in_a_frame(f) <= u32::MAX),
{
    headers_keep_their_promise(f, lengths_of(f, frames));
}

/// Samples are written one behind the other, each in as many bytes as the
/// depth has, and each reads back as its word cut to them.
pub proof fn samples_read_back(depth: Depth, words: Seq<u32>, k: int)
    requires
        0 <= k < words.len(),
    ensures
        ({
            let n = match depth {
                Depth::Bits16 => 2int,
                Depth::Bits24 => 3,
                Depth::Float32 => 4,
            };
            let all = encoded(depth, words);
            &&& all.len() == n * words.len()
            &&& bytes::amount(all.subrange(n * k, n * k + n)) == words[k] as nat % (match depth {
                Depth::Bits16 => 0x1_0000nat,
                Depth::Bits24 => 0x100_0000,
                Depth::Float32 => 0x1_0000_0000,
            })
        }),
    decreases words.len(),
{
    let n = sample_size(depth) as int;
    let all = encoded(depth, words);
    let head = encoded(depth, words.drop_last());
    let last = little(words.last() as nat, sample_size(depth));
    encoded_len(depth, words);
    encoded_len(depth, words.drop_last());
    assert(words.len() * n == n * words.len() && words.drop_last().len() * n == n * (words.len()
        - 1)) by (nonlinear_arith)
        requires
            words.drop_last().len() == words.len() - 1,
    ;
    bytes::a_written_number_is_cut_to_fit(words.last() as nat, sample_size(depth));
    assert(bytes::limit(4) == 0x1_0000_0000 && bytes::limit(3) == 0x100_0000 && bytes::limit(2)
        == 0x1_0000) by {
        reveal_with_fuel(bytes::limit, 5);
    }
    if k == words.len() - 1 {
        assert(all.subrange(n * k, n * k + n) =~= last);
    } else {
        samples_read_back(depth, words.drop_last(), k);
        assert(n * k + n <= n * (words.len() - 1)) by (nonlinear_arith)
            requires
                k + 1 <= words.len() - 1,
                n >= 0,
        ;
        assert(0 <= n * k) by (nonlinear_arith)
            requires
                0 <= k,
                0 <= n,
        ;
        assert(all.subrange(n * k, n * k + n) =~= head.subrange(n * k, n * k + n));
    }
}

/// A take of whole frames has one frame for each run of as many samples as
/// it has channels.
pub proof fn frames_are_runs_of_samples(frames: nat, channels: u16)
    requires
        channels > 0,
    ensures
        frames_in(frames * channels as nat, channels) == frames,
{
    vstd::arithmetic::div_mod::lemma_div_by_multiple(frames as int, channels as int);
}

/// A new file declares nothing yet: no length, no samples and no frames.
pub proof fn a_new_file_declares_nothing(f: Format)
    ensures
        ({
            let h = header(f, no_lengths());
            let end = h.len() as int;
            &&& f.container != Container::Rf64 ==> bytes::amount(h.subrange(4, 8)) == 0
                && bytes::amount(h.subrange(end - 4, end)) == 0
            &&& f.container == Container::Rf64 ==> bytes::amount(h.subrange(20, 28)) == 0
                && bytes::amount(h.subrange(28, 36)) == 0 && bytes::amount(h.subrange(36, 44)) == 0
        }),
{
    let h = header(f, no_lengths());
    let end = h.len() as int;
    headers_keep_their_promise(f, no_lengths());
    format_len(f);
    assert(bytes::limit(4) == 0x1_0000_0000) by {
        reveal_with_fuel(bytes::limit, 5);
    }
    assert(bytes::limit(8) == 0x1_0000_0000_0000_0000) by {
        reveal_with_fuel(bytes::limit, 9);
    }
    bytes::a_written_number_reads_back(0, 4);
    bytes::a_written_number_reads_back(0, 8);
    bytes::little_len(u32::MAX as nat, 4);
    bytes::little_len(DS64_LEN as nat, 4);
    if f.container == Container::Rf64 {
        assert(h.subrange(20, 28) =~= little(0, 8));
        assert(h.subrange(28, 36) =~= little(0, 8));
        assert(h.subrange(36, 44) =~= little(0, 8));
    } else {
        assert(h.subrange(4, 8) =~= little(0, 4));
        assert(h.subrange(end - 4, end) =~= little(0, 4));
    }
}

/// Containers and depths are spelt like this, step through in this order,
/// and what is spelt otherwise is taken for the first.
pub proof fn containers_and_depths_are_spelt_like_this(s: Seq<char>)
    ensures
        container_spelling(Container::Wav) == "wav"@,
        container_spelling(Container::Bwf) == "bwf"@,
        container_spelling(Container::Rf64) == "rf64"@,
        depth_spelling(Depth::Bits16) == "16"@,
        depth_spelling(Depth::Bits24) == "24"@,
        depth_spelling(Depth::Float32) == "32f"@,
        s != "bwf"@ && s != "rf64"@ ==> container_spelt(s) == Container::Wav,
        s != "24"@ && s != "32f"@ ==> depth_spelt(s) == Depth::Bits16,
        container_after(Container::Wav) == Container::Bwf,
        container_after(Container::Bwf) == Container::Rf64,
        depth_after(Depth::Bits16) == Depth::Bits24,
        depth_after(Depth::Bits24) == Depth::Float32,
{
}

/// Where nothing else is known of a take's channels, every sample is a
/// frame; frames never come from less than a whole run of samples.
pub proof fn no_frame_is_counted_early(samples: nat, channels: u16)
    ensures
        channels == 0 ==> frames_in(samples, channels) == samples,
        channels > 0 ==> frames_in(samples, channels) * channels <= samples < (frames_in(
            samples,
            channels,
        ) + 1) * channels,
{
    if channels > 0 {
        let q = frames_in(samples, channels);
        let c = channels as nat;
        assert(q * c <= samples < (q + 1) * c) by (nonlinear_arith)
            requires
                q == samples / c,
                c > 0,
        ;
    }
}

/// A depth has eight bits to the byte, and only the float is tagged as one.
pub proof fn a_byte_has_eight_bits(depth: Depth, bytes: u32, bits: u16, tagged: u16)
    requires
        call_ensures(Depth::bytes, (depth,), bytes),
        call_ensures(Depth::bits, (depth,), bits),
        call_ensures(Depth::format_tag, (depth,), tagged),
    ensures
        bits == 8 * bytes,
        bytes == (match depth {
            Depth::Bits16 => 2u32,
            Depth::Bits24 => 3,
            Depth::Float32 => 4,
        }),
        tagged == 3 <==> depth == Depth::Float32,
        tagged == 1 <==> depth != Depth::Float32,
{
}

/// The length of the data is the last thing in a header.
pub proof fn the_data_length_ends_the_header(container: Container, head: u32, at: u64)
    requires
        call_ensures(Container::header_len, (container,), head),
        call_ensures(Container::data_size_at, (container,), at),
    ensures
        at + 4 == head,
        head == (match container {
            Container::Wav => 44u32,
            Container::Bwf => 654,
            Container::Rf64 => 80,
        }),
{
}

/// A take's duration is its frames at its rate, the odd frames fewer than a
/// second's.
pub proof fn a_duration_is_frames_at_a_rate(writer: Writer, r: Length)
    requires
        call_ensures(Writer::duration, (&writer,), r),
    ensures
        writer.format().rate > 0 ==> r.secs * writer.format().rate + r.frames == writer.count()
            && r.frames < writer.format().rate,
        writer.format().rate == 0 ==> r.secs == 0 && r.frames == 0,
{
    let rate = writer.format().rate as nat;
    if rate > 0 {
        let q = writer.count() / rate;
        let m = writer.count() % rate;
        assert(q * rate + m == writer.count() && m < rate) by (nonlinear_arith)
            requires
                q == writer.count() / rate,
                m == writer.count() % rate,
                rate > 0,
        ;
    }
}

/// A new take's header reads back as its format, wherever its container
/// keeps it.
pub proof fn a_written_header_reads_back(
    rate: u32,
    channels: u16,
    depth: Depth,
    container: Container,
    r: Vec<u8>,
)
    requires
        call_ensures(write_header, (rate, channels, depth, container), r),
        rate as nat * bytes_in_a_frame(Format { rate, channels, depth, container }) <= u32::MAX,
    ensures
        reads_as(
            r@,
            format_at(container),
            Format { rate, channels, depth, container },
        ),
{
    let f = Format { rate, channels, depth, container };
    every_field_of_the_format_reads_back(f, no_lengths(), Seq::empty());
    assert(r@ + Seq::<u8>::empty() =~= r@);
}

/// More samples are taken exactly as long as the file they would make can
/// still say how long it is.
pub proof fn a_take_is_full_when_it_cannot_say_its_length(
    writer: Writer,
    samples: usize,
    room: bool,
)
    requires
        call_ensures(Writer::has_room, (&writer, samples), room),
        writer.format().channels > 0,
    ensures
        ({
            let f = writer.format();
            let frames = writer.count() + samples as nat / f.channels as nat;
            let whole = header(f, no_lengths()).len() + frames * bytes_in_a_frame(f);
            &&& f.container != Container::Rf64 ==> room == (whole <= u32::MAX && frames <= u64::MAX)
            &&& f.container == Container::Rf64 ==> room == (whole <= u64::MAX && frames <= u64::MAX)
        }),
{
    headers_keep_their_promise(writer.format(), no_lengths());
}

} // verus!
