//! Audio file player for the tape deck.
//!
//! Audio files (WAV, MP3, FLAC, OGG Vorbis, AAC, M4A, ALAC) are decoded on a
//! thread of their own, and the samples are fed as stereo into a playback
//! stream for each mixer bus node the deck plays into. What is decided on
//! the way is here: which streams there are and which of them counts, what
//! of a decoded buffer is played, and what goes into each buffer the graph
//! asks to be filled.

use std::collections::VecDeque;

use vstd::prelude::*;

use crate::bytes;
use crate::lists;
use crate::props;
use crate::single::Single;
use crate::text;

use super::meters;
use super::wav::Length;

verus! {

/// Status and metadata of the player.
#[derive(Debug, Clone, Copy, PartialEq, Eq)]
pub struct Status {
    pub position_frames: u64,
    pub total_frames: Option<u64>,
    pub sample_rate: u32,
    pub channels: u16,
    pub is_playing: bool,
    pub is_ended: bool,
}

impl Default for Status {
    fn default() -> (status: Status)
        ensures
            status == (Status {
                position_frames: 0,
                total_frames: None,
                sample_rate: 0,
                channels: 0,
                is_playing: false,
                is_ended: false,
            }),
    {
        Status {
            position_frames: 0,
            total_frames: None,
            sample_rate: 0,
            channels: 0,
            is_playing: false,
            is_ended: false,
        }
    }
}

/// How long some frames are at a rate.
pub open spec fn seconds(frames: nat, rate: nat) -> Length {
    Length { secs: (frames / rate) as u64, frames: (frames % rate) as u64 }
}

impl Status {
    /// Where playback stands: whole seconds, and frames beyond them.
    #[must_use]
    pub fn position_seconds(self) -> (r: Length)
        ensures
            r == (if self.sample_rate == 0 {
                (Length { secs: 0, frames: 0 })
            } else {
                seconds(self.position_frames as nat, self.sample_rate as nat)
            }),
    {
        if self.sample_rate == 0 {
            Length { secs: 0, frames: 0 }
        } else {
            Length {
                secs: self.position_frames / self.sample_rate as u64,
                frames: self.position_frames % self.sample_rate as u64,
            }
        }
    }

    /// How long the file is, where that is known.
    #[must_use]
    pub fn duration_seconds(self) -> (r: Option<Length>)
        ensures
            r == (match self.total_frames {
                Some(frames) if self.sample_rate != 0 => Some(
                    seconds(frames as nat, self.sample_rate as nat),
                ),
                _ => None,
            }),
    {
        match self.total_frames {
            Some(frames) => {
                if self.sample_rate == 0 {
                    None
                } else {
                    Some(
                        Length {
                            secs: frames / self.sample_rate as u64,
                            frames: frames % self.sample_rate as u64,
                        },
                    )
                }
            },
            None => None,
        }
    }
}

/// The player's counters as they were read.
#[derive(Debug, Clone, Copy, PartialEq, Eq)]
pub struct StatusHandle {
    pub position_frames: u64,
    /// Zero where the length is not known.
    pub total_frames: u64,
    pub sample_rate: u64,
    pub playing: bool,
    pub ended: bool,
}

impl StatusHandle {
    /// An instantaneous snapshot, for display.
    #[must_use]
    pub fn snapshot(&self) -> (status: Status)
        ensures
            status == (Status {
                position_frames: self.position_frames,
                total_frames: if self.total_frames == 0 {
                    None
                } else {
                    Some(self.total_frames)
                },
                sample_rate: self.sample_rate as u32,
                channels: 2,
                is_playing: self.playing,
                is_ended: self.ended,
            }),
    {
        Status {
            position_frames: self.position_frames,
            total_frames: if self.total_frames == 0 {
                None
            } else {
                Some(self.total_frames)
            },
            sample_rate: self.sample_rate as u32,
            channels: 2,
            is_playing: self.playing,
            is_ended: self.ended,
        }
    }
}

// ---------------------------------------------------------------------
// Streams

/// A playback stream: the node it plays into, and its own number.
#[derive(Debug)]
pub struct Output {
    pub target: String,
    pub id: u64,
}

/// The streams of a player.
#[derive(Debug)]
pub struct Player {
    outputs: Vec<Output>,
    /// Handed out to each new stream so the primary can be named.
    next_stream_id: u64,
    /// Which stream advances the position.
    ///
    /// Every target renders the same audio, so if each one counted the
    /// frames it wrote the position would run at the number of outputs
    /// times real time: two speakers and the counter moves twice as
    /// fast. Exactly one stream counts, named here rather than fixed at
    /// creation so that turning off whichever output happens to be first
    /// hands the job to another instead of stopping the clock.
    primary: u64,
}

/// No two streams have one number.
pub open spec fn apart(outputs: Seq<Output>) -> bool {
    forall|i: int, j: int|
        0 <= i < j < outputs.len() ==> (#[trigger] outputs[i]).id != (#[trigger] outputs[j]).id
}

/// No stream has a number that is still to be handed out.
pub open spec fn below(outputs: Seq<Output>, next: nat) -> bool {
    forall|i: int| 0 <= i < outputs.len() ==> (#[trigger] outputs[i]).id < next
}

/// Whether some stream has this number.
pub open spec fn numbered(outputs: Seq<Output>, id: u64) -> bool {
    exists|i: int| 0 <= i < outputs.len() && (#[trigger] outputs[i]).id == id
}

/// Whether some stream plays into a node.
pub open spec fn plays_into(outputs: Seq<Output>, target: Seq<char>) -> bool {
    exists|i: int| 0 <= i < outputs.len() && (#[trigger] outputs[i]).target@ == target
}

/// Whether no two streams play into one node.
pub open spec fn each_once(outputs: Seq<Output>) -> bool {
    forall|i: int, j: int|
        0 <= i < j < outputs.len() ==> (#[trigger] outputs[i]).target@ != (
        #[trigger] outputs[j]).target@
}

/// The streams into some nodes.
pub open spec fn into_one_of(wanted: Seq<Seq<char>>) -> spec_fn(Output) -> bool {
    |o: Output| wanted.contains(o.target@)
}

/// Who counts after a change: whoever did, if still there, and otherwise the
/// first that is.
pub open spec fn heir(outputs: Seq<Output>, primary: u64) -> u64 {
    if numbered(outputs, primary) || outputs.len() == 0 {
        primary
    } else {
        outputs[0].id
    }
}

impl Player {
    /// The streams, in the order they were opened.
    pub closed spec fn outputs(&self) -> Seq<Output> {
        self.outputs@
    }

    /// The number the next stream gets.
    pub closed spec fn next(&self) -> nat {
        self.next_stream_id as nat
    }

    /// The number of the stream that counts.
    pub closed spec fn counting(&self) -> u64 {
        self.primary
    }

    /// No two streams have one number, and none has one that is still to be
    /// handed out.
    pub open spec fn wf(&self) -> bool {
        apart(self.outputs()) && below(self.outputs(), self.next())
    }

    /// After a stream into a node was asked for: it gets a number, unless
    /// the deck already plays into the node or there are none left.
    pub open spec fn has_asked(&self, after: &Self, target: Seq<char>, id: Option<u64>) -> bool {
        &&& after.outputs() == self.outputs()
        &&& after.counting() == self.counting()
        &&& if !plays_into(self.outputs(), target) && self.next() < u64::MAX {
            id == Some(self.next() as u64) && after.next() == self.next() + 1
        } else {
            id is None && after.next() == self.next()
        }
    }

    /// After a stream was opened.
    pub open spec fn has_opened(&self, after: &Self, target: String, id: u64) -> bool {
        &&& after.outputs() == self.outputs().push(Output { target, id })
        &&& after.next() == self.next()
        &&& after.counting() == self.counting()
    }

    /// After only the streams into some nodes were kept.
    pub open spec fn has_kept(&self, after: &Self, wanted: Seq<Seq<char>>) -> bool {
        &&& after.outputs() == self.outputs().filter(into_one_of(wanted))
        &&& after.next() == self.next()
        &&& after.counting() == self.counting()
    }

    /// After it was settled who counts.
    pub open spec fn has_settled(&self, after: &Self) -> bool {
        &&& after.outputs() == self.outputs()
        &&& after.next() == self.next()
        &&& after.counting() == heir(self.outputs(), self.counting())
    }

    /// A player without any streams yet.
    pub fn new() -> (player: Player)
        ensures
            player.wf(),
            player.outputs() == Seq::<Output>::empty(),
            player.next() == 0,
            player.counting() == 0,
    {
        Player { outputs: Vec::new(), next_stream_id: 0, primary: 0 }
    }

    /// A number for one more stream. It is not handed out again, whether the
    /// stream can be opened or not. Nothing once they have all been handed
    /// out.
    pub fn claim(&mut self) -> (id: Option<u64>)
        requires
            old(self).wf(),
        ensures
            final(self).wf(),
            final(self).outputs() == old(self).outputs(),
            final(self).counting() == old(self).counting(),
            if old(self).next() < u64::MAX {
                id == Some(old(self).next() as u64) && final(self).next() == old(self).next() + 1
            } else {
                id is None && final(self).next() == old(self).next()
            },
    {
        if self.next_stream_id == u64::MAX {
            return None;
        }
        let id = self.next_stream_id;
        self.next_stream_id = self.next_stream_id + 1;
        Some(id)
    }

    /// A number for the stream into a node that the deck is to play into
    /// from now on. Nothing where it already does.
    pub fn open(&mut self, target: &str) -> (id: Option<u64>)
        requires
            old(self).wf(),
        ensures
            final(self).wf(),
            old(self).has_asked(final(self), target@, id),
    {
        if self.has(target) {
            None
        } else {
            self.claim()
        }
    }

    /// Note that a stream was opened.
    pub fn opened(&mut self, target: String, id: u64)
        requires
            old(self).wf(),
            id < old(self).next(),
            !numbered(old(self).outputs(), id),
        ensures
            final(self).wf(),
            old(self).has_opened(final(self), target, id),
    {
        self.outputs.push(Output { target, id });
    }

    /// Whether the deck already plays into a node.
    pub fn has(&self, target: &str) -> (r: bool)
        ensures
            r == plays_into(self.outputs(), target@),
    {
        for i in 0..self.outputs.len()
            invariant
                forall|j: int| 0 <= j < i ==> (#[trigger] self.outputs@[j]).target@ != target@,
        {
            if text::same(self.outputs[i].target.as_str(), target) {
                return true;
            }
        }
        false
    }

    /// Keep only the streams into some nodes. Returns the numbers of those
    /// that are let go.
    pub fn retain(&mut self, targets: &Vec<String>) -> (gone: Vec<u64>)
        requires
            old(self).wf(),
        ensures
            final(self).wf(),
            old(self).has_kept(final(self), text::texts(targets@)),
            gone@ == old(self).outputs().filter(
                |o: Output| !text::texts(targets@).contains(o.target@),
            ).map_values(|o: Output| o.id),
    {
        let ghost all = self.outputs@;
        let ghost wanted = text::texts(targets@);
        let ghost keep = into_one_of(wanted);
        let ghost drop = |o: Output| !wanted.contains(o.target@);
        let ghost id = |o: Output| o.id;
        let mut old_outputs: Vec<Output> = Vec::new();
        std::mem::swap(&mut old_outputs, &mut self.outputs);
        let mut gone: Vec<u64> = Vec::new();
        proof {
            lists::filter_none(all, keep);
            lists::filter_none(all, drop);
            assert(all.take(0).filter(drop).map_values(id) =~= Seq::empty());
        }
        for output in it: old_outputs
            invariant
                it.seq() == all,
                wanted == text::texts(targets@),
                keep == into_one_of(wanted),
                drop == (|o: Output| !wanted.contains(o.target@)),
                id == (|o: Output| o.id),
                self.next_stream_id == old(self).next_stream_id,
                self.primary == old(self).primary,
                self.outputs@ == all.take(it.index() as int).filter(keep),
                gone@ == all.take(it.index() as int).filter(drop).map_values(id),
        {
            let ghost i = it.index() as int;
            proof {
                lists::filter_step(all, i, keep);
                lists::filter_step(all, i, drop);
                let so_far = all.take(i).filter(drop);
                assert(so_far.push(output).map_values(id) =~= so_far.map_values(id).push(
                    output.id,
                ));
            }
            if text::lists(targets, output.target.as_str()) {
                self.outputs.push(output);
            } else {
                gone.push(output.id);
            }
        }
        proof {
            assert(all.take(all.len() as int) =~= all);
            let kept = self.outputs@;
            lists::filter_keeps_apart(all, keep, |o: Output| o.id);
            assert forall|i: int| 0 <= i < kept.len() implies (#[trigger] kept[i]).id
                < self.next_stream_id by {
                assert(kept.contains(kept[i]));
                lists::filter_contains(all, keep, kept[i]);
                let k = all.index_of(kept[i]);
                assert(all[k].id < old(self).next());
            }
        }
        gone
    }

    /// Settle who counts. Whoever was counting may have just been switched
    /// off: the job goes to a survivor rather than leaving the position
    /// frozen with audio still playing.
    pub fn settle(&mut self) -> (primary: u64)
        requires
            old(self).wf(),
        ensures
            final(self).wf(),
            old(self).has_settled(final(self)),
            primary == final(self).counting(),
    {
        let mut found = false;
        for i in 0..self.outputs.len()
            invariant
                found == (exists|j: int|
                    0 <= j < i && (#[trigger] self.outputs@[j]).id == self.primary),
                *self == *old(self),
        {
            if self.outputs[i].id == self.primary {
                found = true;
                proof {
                    assert(self.outputs@[i as int].id == self.primary);
                }
            }
        }
        if !found && self.outputs.len() > 0 {
            self.primary = self.outputs[0].id;
        }
        self.primary
    }

    /// Whether there is any stream to play into.
    pub fn is_silent(&self) -> (r: bool)
        ensures
            r == (self.outputs().len() == 0),
    {
        self.outputs.len() == 0
    }
}

/// How many of the frames one stream wrote advance the position: all of
/// them where it is the stream that counts, and none where it is not.
pub fn counted(id: u64, primary: u64, frames: u64) -> (n: u64)
    ensures
        n == (if id == primary {
            frames
        } else {
            0
        }),
{
    if id == primary {
        frames
    } else {
        0
    }
}

/// How a playback stream is asked for.
pub open spec fn output_properties(target: Seq<char>) -> Seq<(Seq<char>, Seq<char>)> {
    let list = seq![
        ("media.type"@, "Audio"@),
        ("media.category"@, "Playback"@),
        ("media.role"@, "Music"@),
        ("target.object"@, target),
        ("node.name"@, "pipemeter_deck_player"@),
        ("node.description"@, "PipeMeter Player -> "@ + target),
    ];
    if text::begins(target, "pipemeter_"@) {
        list.push(("stream.dont-reconnect"@, "true"@)).push(("stream.capture.sink"@, "true"@))
    } else {
        list
    }
}

/// What the playback stream into a node is to be made with.
pub fn properties(target: &str) -> (list: Vec<(String, String)>)
    ensures
        props::pairs(list@) == output_properties(target@),
{
    let mut list = props::none();
    props::put(&mut list, "media.type", "Audio");
    props::put(&mut list, "media.category", "Playback");
    props::put(&mut list, "media.role", "Music");
    props::put(&mut list, "target.object", target);
    props::put(&mut list, "node.name", "pipemeter_deck_player");
    props::put(
        &mut list,
        "node.description",
        text::cat2("PipeMeter Player -> ", target).as_str(),
    );
    let chars = text::chars_of(target);
    let ours = text::chars_of("pipemeter_");
    if text::starts_with(chars.as_slice(), ours.as_slice()) {
        props::put(&mut list, "stream.dont-reconnect", "true");
        props::put(&mut list, "stream.capture.sink", "true");
    }
    proof {
        assert(props::pairs(list@) =~= output_properties(target@));
    }
    list
}

/// How many channels a playback stream has: two at most.
pub fn playback_channels(channels: u16) -> (n: u32)
    ensures
        n == (if channels < 2 {
            channels as u32
        } else {
            2
        }),
{
    if channels < 2 {
        channels as u32
    } else {
        2
    }
}

// ---------------------------------------------------------------------
// What is played

/// The bits of -60.0, the gain in dB at which there is nothing left.
pub const SILENT_DB: u32 = 0xc270_0000;

/// The linear gain for one in dB: silence at -60 dB and below, otherwise
/// what the conversion gives.
pub fn player_gain(gain_db: Single, linear: Single) -> (gain: Single)
    ensures
        gain == (if gain_db.at_most(Single { bits: SILENT_DB }) {
            (Single { bits: 0 })
        } else {
            linear
        }),
{
    if gain_db.is_at_most(Single { bits: SILENT_DB }) {
        Single { bits: 0 }
    } else {
        linear
    }
}

/// How many channel positions there are: every bit of a channel mask that
/// has a meaning.
pub const POSITIONS: u32 = 26;

/// How many of a mask's lowest bits are set.
pub open spec fn marked(mask: u32, bits: nat) -> nat
    decreases bits,
{
    if bits == 0 {
        0
    } else {
        let below = (bits - 1) as nat;
        marked(mask, below) + if (mask >> below as u32) & 1 == 1 {
            1nat
        } else {
            0
        }
    }
}

/// How many channels a mask stands for. Bits above the last position mean
/// nothing.
pub open spec fn speakers(mask: u32) -> nat {
    marked(mask, POSITIONS as nat)
}

/// `Channels::count` of the `symphonia` crate, on the mask that `from_bits_truncate`
/// makes of the bits. That drops the bits beyond the last of the
/// positions `Channels` declares, which are the lowest bits without a gap,
/// and what is counted is the bits that are left.
#[verifier::external_body]
fn count_channels(mask: u32) -> (n: usize)
    ensures
        n == speakers(mask),
{
    symphonia::core::audio::Channels::from_bits_truncate(mask).count()
}

proof fn marked_is_bounded(mask: u32, bits: nat)
    ensures
        marked(mask, bits) <= bits,
    decreases bits,
{
    if bits > 0 {
        marked_is_bounded(mask, (bits - 1) as nat);
    }
}

/// What a file says of the track that is played.
#[derive(Debug, Clone, Copy, PartialEq, Eq)]
pub struct Track {
    pub rate: Option<u32>,
    /// Which channel positions it has, as a mask.
    pub channels: Option<u32>,
    pub frames: Option<u64>,
}

/// A track's rate, channels and frames, with 48 kHz and stereo where it does
/// not say, and no frames where their number is not known.
pub fn track_format(track: Track) -> (r: (u32, u16, u64))
    ensures
        r.0 == (match track.rate {
            Some(rate) => rate,
            None => 48000,
        }),
        r.1 == (match track.channels {
            Some(mask) => speakers(mask),
            None => 2,
        }),
        r.2 == (match track.frames {
            Some(n) => n,
            None => 0,
        }),
{
    let rate: u32 = match track.rate {
        Some(rate) => rate,
        None => 48000,
    };
    let channels: u16 = match track.channels {
        Some(mask) => {
            proof {
                marked_is_bounded(mask, POSITIONS as nat);
            }
            count_channels(mask) as u16
        },
        None => 2,
    };
    let frames: u64 = match track.frames {
        Some(n) => n,
        None => 0,
    };
    (rate, channels, frames)
}

/// Which of a file's tracks is played: the first that has a codec.
pub fn pick_track(has_codec: &Vec<bool>) -> (at: Option<usize>)
    ensures
        match at {
            Some(i) => i < has_codec@.len() && has_codec@[i as int] && forall|j: int|
                0 <= j < i ==> !#[trigger] has_codec@[j],
            None => !has_codec@.contains(true),
        },
{
    for i in 0..has_codec.len()
        invariant
            forall|j: int| 0 <= j < i ==> !#[trigger] has_codec@[j],
    {
        if has_codec[i] {
            return Some(i);
        }
    }
    None
}

/// A decoded buffer.
#[derive(Debug)]
pub enum Decoded {
    /// A plane for each channel, and how many frames of them count.
    Planes { planes: Vec<Vec<Single>>, frames: usize },
    /// The channels of each frame one after the other, and which positions
    /// they are, as a mask.
    Interleaved { samples: Vec<Single>, channels: u32 },
}

/// Each sample on both sides.
pub open spec fn doubled(mono: Seq<Single>) -> Seq<Single> {
    Seq::new(mono.len() * 2, |i: int| mono[i / 2])
}

/// Two planes, frame by frame.
pub open spec fn braided(left: Seq<Single>, right: Seq<Single>, frames: nat) -> Seq<Single> {
    Seq::new(
        frames * 2,
        |i: int|
            if i % 2 == 0 {
                left[i / 2]
            } else {
                right[i / 2]
            },
    )
}

/// The first two channels of each whole frame.
pub open spec fn front(samples: Seq<Single>, channels: int) -> Seq<Single> {
    Seq::new(
        (samples.len() as int / channels) as nat * 2,
        |i: int| samples[(i / 2) * channels + i % 2],
    )
}

impl Decoded {
    /// What of the buffer is played, as stereo: the first two channels, or
    /// the only one on both sides.
    pub open spec fn stereo(self) -> Seq<Single> {
        match self {
            Decoded::Planes { planes, frames } => if planes@.len() >= 2 {
                braided(planes@[0]@, planes@[1]@, frames as nat)
            } else if planes@.len() == 1 {
                doubled(
                    planes@[0]@.take(
                        if frames < planes@[0]@.len() {
                            frames as int
                        } else {
                            planes@[0]@.len() as int
                        },
                    ),
                )
            } else {
                seq![]
            },
            Decoded::Interleaved { samples, channels } => if speakers(channels) >= 2 {
                front(samples@, speakers(channels) as int)
            } else {
                doubled(samples@)
            },
        }
    }

    /// Whether the planes hold the frames they are said to.
    pub open spec fn wf(self) -> bool {
        self matches Decoded::Planes { planes, frames } ==> (planes@.len() >= 2 ==> frames
            <= planes@[0]@.len() && frames <= planes@[1]@.len())
    }
}

fn double(mono: &Vec<Single>, count: usize) -> (out: Vec<Single>)
    requires
        count <= mono@.len(),
    ensures
        out@ == doubled(mono@.take(count as int)),
{
    let mut out: Vec<Single> = Vec::new();
    for i in 0..count
        invariant
            count <= mono@.len(),
            out@.len() == i * 2,
            forall|j: int| 0 <= j < out@.len() ==> #[trigger] out@[j] == mono@[j / 2],
    {
        out.push(mono[i]);
        out.push(mono[i]);
    }
    proof {
        assert(out@ =~= doubled(mono@.take(count as int)));
    }
    out
}

/// What of a decoded buffer is to be played, as stereo. Every stream's queue
/// gets all of it.
pub fn append_samples(decoded: &Decoded) -> (out: Vec<Single>)
    requires
        decoded.wf(),
    ensures
        out@ == decoded.stereo(),
{
    match decoded {
        Decoded::Planes { planes, frames } => {
            if planes.len() >= 2 {
                let mut out: Vec<Single> = Vec::new();
                for i in 0..*frames
                    invariant
                        planes@.len() >= 2,
                        *frames <= planes@[0]@.len(),
                        *frames <= planes@[1]@.len(),
                        out@.len() == i * 2,
                        forall|j: int|
                            0 <= j < out@.len() ==> #[trigger] out@[j] == (if j % 2 == 0 {
                                planes@[0]@[j / 2]
                            } else {
                                planes@[1]@[j / 2]
                            }),
                {
                    out.push(planes[0][i]);
                    out.push(planes[1][i]);
                }
                proof {
                    assert(out@ =~= decoded.stereo());
                }
                out
            } else if planes.len() == 1 {
                let count = if *frames < planes[0].len() {
                    *frames
                } else {
                    planes[0].len()
                };
                double(&planes[0], count)
            } else {
                Vec::new()
            }
        },
        Decoded::Interleaved { samples, channels } => {
            let count = count_channels(*channels);
            if count >= 2 {
                interleave(samples, count)
            } else {
                proof {
                    assert(samples@.take(samples@.len() as int) =~= samples@);
                }
                double(samples, samples.len())
            }
        },
    }
}

fn interleave(samples: &Vec<Single>, channels: usize) -> (out: Vec<Single>)
    requires
        channels >= 2,
    ensures
        out@ == front(samples@, channels as int),
{
    let total = samples.len();
    let frames = total / channels;
    let mut out: Vec<Single> = Vec::new();
    let mut at: usize = 0;
    proof {
        assert(0 * channels == 0) by (nonlinear_arith);
    }
    for i in 0..frames
        invariant
            channels >= 2,
            total == samples@.len(),
            frames == samples@.len() as int / channels as int,
            at == i * channels,
            out@.len() == i * 2,
            forall|j: int|
                0 <= j < out@.len() ==> #[trigger] out@[j] == samples@[(j / 2) * channels + j % 2],
    {
        proof {
            vstd::arithmetic::div_mod::lemma_fundamental_div_mod(
                samples@.len() as int,
                channels as int,
            );
            assert((i + 1) * channels <= frames * channels) by (nonlinear_arith)
                requires
                    i < frames,
                    channels >= 2,
            ;
            assert((i + 1) * channels == i * channels + channels) by (nonlinear_arith);
            assert(frames * channels == channels * frames) by (nonlinear_arith);
        }
        out.push(samples[at]);
        out.push(samples[at + 1]);
        at = at + channels;
    }
    proof {
        assert(out@ =~= front(samples@, channels as int));
    }
    out
}

// ---------------------------------------------------------------------
// Filling a buffer

/// How many bytes a frame takes.
pub const STRIDE: i32 = 8;

/// How many frames a buffer has room for.
pub open spec fn room(len: nat) -> nat {
    len / 4 / 2
}

/// How many frames go into a buffer: as many as there is room for and as
/// wait, the last of them though it be half there.
pub open spec fn ready(waiting: nat, len: nat) -> nat {
    if (waiting + 1) / 2 < room(len) {
        (waiting + 1) / 2
    } else {
        room(len)
    }
}

/// The samples that go into a buffer. A frame without its right side gets
/// silence there.
pub open spec fn drawn(queue: Seq<Single>, len: nat) -> Seq<Single> {
    Seq::new(
        ready(queue.len(), len) * 2,
        |i: int|
            if i < queue.len() {
                queue[i]
            } else {
                Single { bits: 0 }
            },
    )
}

/// What is left waiting.
pub open spec fn left_over(queue: Seq<Single>, len: nat) -> Seq<Single> {
    if ready(queue.len(), len) * 2 < queue.len() {
        queue.skip((ready(queue.len(), len) * 2) as int)
    } else {
        seq![]
    }
}

/// Take what goes into a buffer of so many bytes off a stream's queue.
pub fn draw(queue: &mut VecDeque<Single>, len: usize) -> (samples: Vec<Single>)
    ensures
        samples@ == drawn(old(queue)@, len as nat),
        final(queue)@ == left_over(old(queue)@, len as nat),
{
    let capacity = len / 4 / 2;
    let ghost all = queue@;
    let mut samples: Vec<Single> = Vec::new();
    let mut frames: usize = 0;
    proof {
        assert(all.skip(0) =~= all);
    }
    while frames < capacity && queue.len() > 0
        invariant
            capacity == room(len as nat),
            capacity <= len,
            frames <= capacity,
            frames <= (all.len() + 1) / 2,
            samples@.len() == frames * 2,
            forall|i: int|
                0 <= i < samples@.len() ==> #[trigger] samples@[i] == (if i < all.len() {
                    all[i]
                } else {
                    Single { bits: 0 }
                }),
            queue@ == (if frames * 2 < all.len() {
                all.skip(frames * 2)
            } else {
                Seq::<Single>::empty()
            }),
        decreases capacity - frames,
    {
        let left = match queue.pop_front() {
            Some(s) => s,
            None => Single { bits: 0 },
        };
        let right = match queue.pop_front() {
            Some(s) => s,
            None => Single { bits: 0 },
        };
        samples.push(left);
        samples.push(right);
        frames = frames + 1;
        proof {
            if frames * 2 < all.len() {
                assert(queue@ =~= all.skip(frames * 2));
            } else {
                assert(queue@ =~= Seq::<Single>::empty());
            }
        }
    }
    proof {
        assert(samples@ =~= drawn(all, len as nat));
        assert(queue@ =~= left_over(all, len as nat));
    }
    samples
}

/// A buffer as it is handed to the graph: its bytes, and how many of them
/// count.
#[derive(Debug)]
pub struct Filled {
    pub bytes: Vec<u8>,
    pub size: u32,
    /// How many frames of audio are in it.
    pub frames: u64,
}

/// Samples as bytes, and silence up to a length.
pub open spec fn laid_out(samples: Seq<Single>, len: nat) -> Seq<u8>
    decreases samples.len(),
{
    if samples.len() == 0 {
        Seq::new(len, |i: int| 0u8)
    } else {
        bytes::little(samples[0].bits as nat, 4) + laid_out(
            samples.skip(1),
            if len >= 4 {
                (len - 4) as nat
            } else {
                0
            },
        )
    }
}

/// Lay samples out in a buffer of so many bytes, with silence behind them.
pub fn fill(samples: &Vec<Single>, len: usize) -> (filled: Filled)
    requires
        samples@.len() * 4 <= len,
    ensures
        filled.bytes@ == laid_out(samples@, len as nat),
        filled.bytes@.len() == len,
        filled.size == (room(len as nat) * 8) as u32,
        filled.frames == samples@.len() / 2,
{
    let mut out: Vec<u8> = Vec::new();
    let ghost all = samples@;
    proof {
        assert(all.skip(0) =~= all);
        assert(Seq::<u8>::empty() + laid_out(all, len as nat) =~= laid_out(all, len as nat));
    }
    for i in 0..samples.len()
        invariant
            all == samples@,
            all.len() * 4 <= len,
            out@.len() == i * 4,
            out@ + laid_out(all.skip(i as int), (len - i * 4) as nat) == laid_out(
                all,
                len as nat,
            ),
    {
        let ghost before = out@;
        bytes::put_little(&mut out, samples[i].bits as u64, 4);
        proof {
            let rest = all.skip(i as int);
            bytes::little_len(samples@[i as int].bits as nat, 4);
            assert(rest[0] == all[i as int]);
            assert(rest.skip(1) =~= all.skip(i + 1));
            let tail = laid_out(all.skip(i + 1), (len - (i + 1) * 4) as nat);
            assert(before + (bytes::little(all[i as int].bits as nat, 4) + tail) =~= out@ + tail);
        }
    }
    let ghost written = out@;
    proof {
        assert(all.skip(all.len() as int) =~= Seq::<Single>::empty());
    }
    let missing = len - samples.len() * 4;
    put_silence(&mut out, missing);
    let size = (len / 4 / 2 * 8) as u32;
    let frames = (samples.len() / 2) as u64;
    Filled { bytes: out, size, frames }
}

fn put_silence(out: &mut Vec<u8>, count: usize)
    ensures
        final(out)@ == old(out)@ + Seq::new(count as nat, |i: int| 0u8),
{
    let ghost before = out@;
    proof {
        assert(before + Seq::new(0, |i: int| 0u8) =~= before);
    }
    for i in 0..count
        invariant
            out@ == before + Seq::new(i as nat, |j: int| 0u8),
    {
        out.push(0);
        proof {
            assert((before + Seq::new(i as nat, |j: int| 0u8)).push(0u8) =~= before + Seq::new(
                (i + 1) as nat,
                |j: int| 0u8,
            ));
        }
    }
}

/// What goes into a buffer of so many bytes while the player is paused:
/// silence, all of it.
pub fn paused(len: usize) -> (filled: Filled)
    ensures
        filled.bytes@ == Seq::new(len as nat, |i: int| 0u8),
        filled.size == len as u32,
        filled.frames == 0,
{
    let mut out: Vec<u8> = Vec::new();
    put_silence(&mut out, len);
    proof {
        assert(out@ =~= Seq::new(len as nat, |i: int| 0u8));
    }
    Filled { bytes: out, size: len as u32, frames: 0 }
}

// ---------------------------------------------------------------------
// Decoding

/// How long the decoder waits when enough is queued, in milliseconds.
pub const FULL_PAUSE: u64 = 15;

/// How long it waits at the end of the file.
pub const END_PAUSE: u64 = 50;

/// What the decoder does next.
#[derive(Debug, Clone, Copy, PartialEq, Eq, Structural)]
pub enum Turn {
    /// Read a packet.
    Read,
    /// Sleep for so many milliseconds.
    Wait(u64),
    /// Leave.
    Stop,
}

/// The longest of some queues.
pub open spec fn longest(lens: Seq<usize>) -> nat
    decreases lens.len(),
{
    if lens.len() == 0 {
        0
    } else if lens.last() > longest(lens.drop_last()) {
        lens.last() as nat
    } else {
        longest(lens.drop_last())
    }
}

/// Whether the decoder reads on, given how much waits in each stream's
/// queue. It keeps about a second ahead.
pub fn decoder_turn(stopping: bool, lens: &Vec<usize>, rate: u32) -> (turn: Turn)
    ensures
        turn == (if stopping {
            Turn::Stop
        } else if longest(lens@) > rate * 2 {
            Turn::Wait(FULL_PAUSE)
        } else {
            Turn::Read
        }),
{
    if stopping {
        return Turn::Stop;
    }
    let mut most: usize = 0;
    for i in 0..lens.len()
        invariant
            most == longest(lens@.take(i as int)),
    {
        if lens[i] > most {
            most = lens[i];
        }
        proof {
            assert(lens@.take(i + 1).drop_last() =~= lens@.take(i as int));
            assert(lens@.take(i + 1).last() == lens@[i as int]);
        }
    }
    proof {
        assert(lens@.take(lens@.len() as int) =~= lens@);
    }
    if most as u64 > rate as u64 * 2 {
        Turn::Wait(FULL_PAUSE)
    } else {
        Turn::Read
    }
}

/// What the decoder does about what it read.
#[derive(Debug, Clone, Copy, PartialEq, Eq, Structural)]
pub enum Heard {
    /// Decode the packet.
    Decode,
    /// It is of another track.
    Skip,
    /// There is nothing more: say so and sleep for so many milliseconds. A
    /// seek can still bring it back.
    Ended(u64),
}

/// What the decoder does about a packet, by its track. Nothing was read at
/// the end of the file, or where it cannot be read.
pub fn heard(packet: Option<u32>, track: u32) -> (next: Heard)
    ensures
        next == (match packet {
            Some(id) if id == track => Heard::Decode,
            Some(_) => Heard::Skip,
            None => Heard::Ended(END_PAUSE),
        }),
{
    match packet {
        Some(id) => {
            if id == track {
                Heard::Decode
            } else {
                Heard::Skip
            }
        },
        None => Heard::Ended(END_PAUSE),
    }
}

// ---------------------------------------------------------------------
// Laws

/// However streams come and go, once it is settled exactly one of them
/// counts, as long as there is any.
pub proof fn exactly_one_stream_counts(player: Player)
    requires
        player.wf(),
        player.outputs().len() > 0,
    ensures
        ({
            let primary = heir(player.outputs(), player.counting());
            &&& numbered(player.outputs(), primary)
            &&& forall|i: int, j: int|
                0 <= i < player.outputs().len() && 0 <= j < player.outputs().len() && (
                #[trigger] player.outputs()[i]).id == primary && (
                #[trigger] player.outputs()[j]).id == primary ==> i == j
        }),
{
    let outputs = player.outputs();
    let primary = heir(outputs, player.counting());
    if !numbered(outputs, player.counting()) {
        assert(outputs[0].id == primary);
    }
}

/// Whoever counts goes on counting as long as it is there: adding outputs
/// does not move the job.
pub proof fn the_one_that_counts_keeps_counting(outputs: Seq<Output>, more: Output, primary: u64)
    requires
        numbered(outputs, primary),
    ensures
        heir(outputs.push(more), primary) == primary,
        heir(outputs, primary) == primary,
{
    let i = choose|i: int| 0 <= i < outputs.len() && (#[trigger] outputs[i]).id == primary;
    assert(outputs.push(more)[i].id == primary);
}

/// One wanted node's turn: the player after a stream was asked for, the
/// number it got, whether it could be opened, and the player after that.
pub struct Turned {
    pub asked: Player,
    pub id: Option<u64>,
    pub works: bool,
    pub after: Player,
}

/// Whether a turn went as it does: what got a number and works is opened.
pub open spec fn goes(before: Player, target: String, turn: Turned) -> bool {
    &&& before.has_asked(&turn.asked, target@, turn.id)
    &&& match turn.id {
        Some(id) if turn.works => turn.asked.has_opened(&turn.after, target, id),
        _ => turn.after == turn.asked,
    }
}

/// The player after some turns.
pub open spec fn after_turns(start: Player, turns: Seq<Turned>) -> Player {
    if turns.len() == 0 {
        start
    } else {
        turns.last().after
    }
}

/// Whether the turns of some nodes went as they do, one after the other.
pub open spec fn all_go(start: Player, wanted: Seq<String>, turns: Seq<Turned>) -> bool
    decreases turns.len(),
{
    &&& turns.len() == wanted.len()
    &&& turns.len() > 0 ==> {
        &&& all_go(start, wanted.drop_last(), turns.drop_last())
        &&& goes(after_turns(start, turns.drop_last()), wanted.last(), turns.last())
    }
}

/// A turn keeps the streams there are, and leaves one more at most, into the
/// node it is about and with a number of its own.
proof fn a_turn_adds_one_at_most(before: Player, target: String, turn: Turned)
    requires
        before.wf(),
        goes(before, target, turn),
    ensures
        turn.after.wf(),
        turn.after.counting() == before.counting(),
        before.next() <= turn.after.next() <= before.next() + 1,
        before.outputs().is_prefix_of(turn.after.outputs()),
        forall|k: int|
            before.outputs().len() <= k < turn.after.outputs().len() ==> (
            #[trigger] turn.after.outputs()[k]).target@ == target@,
        each_once(before.outputs()) ==> each_once(turn.after.outputs()),
        before.next() < u64::MAX && (turn.id is None || turn.works) ==> plays_into(
            turn.after.outputs(),
            target@,
        ),
{
    let (old_outputs, outputs) = (before.outputs(), turn.after.outputs());
    assert(old_outputs.is_prefix_of(old_outputs));
    if turn.id is Some && turn.works {
        let n = old_outputs.len() as int;
        assert(outputs.subrange(0, n) =~= old_outputs);
        assert(outputs[n].target@ == target@);
        assert(apart(outputs));
        assert(below(outputs, turn.after.next()));
        assert forall|i: int, j: int| 0 <= i < j < outputs.len() && each_once(
            old_outputs,
        ) implies (#[trigger] outputs[i]).target@ != (#[trigger] outputs[j]).target@ by {
            assert(outputs[i] == old_outputs[i]);
            if j < n {
                assert(outputs[j] == old_outputs[j]);
            }
        }
    }
}

/// Some turns keep the streams there are, and leave more only into the nodes
/// they are about.
proof fn turns_add_what_is_wanted(start: Player, wanted: Seq<String>, turns: Seq<Turned>)
    requires
        start.wf(),
        all_go(start, wanted, turns),
    ensures
        ({
            let after = after_turns(start, turns);
            &&& after.wf()
            &&& after.counting() == start.counting()
            &&& start.next() <= after.next() <= start.next() + turns.len()
            &&& start.outputs().is_prefix_of(after.outputs())
            &&& forall|k: int|
                start.outputs().len() <= k < after.outputs().len() ==> text::texts(
                    wanted,
                ).contains((#[trigger] after.outputs()[k]).target@)
            &&& each_once(start.outputs()) ==> each_once(after.outputs())
        }),
    decreases turns.len(),
{
    let after = after_turns(start, turns);
    if turns.len() == 0 {
        assert(start.outputs().is_prefix_of(start.outputs()));
    } else {
        let (fewer, names) = (turns.drop_last(), wanted.drop_last());
        let middle = after_turns(start, fewer);
        turns_add_what_is_wanted(start, names, fewer);
        a_turn_adds_one_at_most(middle, wanted.last(), turns.last());
        let (a, b, c) = (start.outputs(), middle.outputs(), after.outputs());
        assert(c.subrange(0, a.len() as int) =~= b.subrange(0, a.len() as int));
        let all = text::texts(wanted);
        assert forall|k: int| a.len() <= k < c.len() implies all.contains(
            (#[trigger] c[k]).target@,
        ) by {
            if k < b.len() {
                assert(c[k] == c.subrange(0, b.len() as int)[k]);
                assert(b[k] == c[k]);
                let before = text::texts(names);
                let i = before.index_of(b[k].target@);
                assert(all[i] == before[i]);
            } else {
                assert(all[wanted.len() - 1] == wanted.last()@);
            }
        }
    }
}

/// A wanted node is played into after the turns unless its stream could not
/// be opened.
proof fn what_works_is_played_into(
    start: Player,
    wanted: Seq<String>,
    turns: Seq<Turned>,
    i: int,
)
    requires
        start.wf(),
        all_go(start, wanted, turns),
        0 <= i < wanted.len(),
        start.next() + turns.len() <= u64::MAX,
        turns[i].id is None || turns[i].works,
    ensures
        plays_into(after_turns(start, turns).outputs(), wanted[i]@),
    decreases turns.len(),
{
    let (fewer, names) = (turns.drop_last(), wanted.drop_last());
    let middle = after_turns(start, fewer);
    let after = after_turns(start, turns);
    turns_add_what_is_wanted(start, names, fewer);
    a_turn_adds_one_at_most(middle, wanted.last(), turns.last());
    if i < names.len() {
        assert(fewer[i] == turns[i]);
        assert(names[i] == wanted[i]);
        what_works_is_played_into(start, names, fewer, i);
        let target = wanted[i]@;
        let k = choose|k: int|
            0 <= k < middle.outputs().len() && (#[trigger] middle.outputs()[k]).target@ == target;
        assert(after.outputs().subrange(0, middle.outputs().len() as int)[k]
            == middle.outputs()[k]);
        assert(after.outputs()[k].target@ == target);
    }
}

/// Changing what the deck plays into, without interrupting it: the streams
/// into nodes that are not wanted are let go, each wanted node that has none
/// gets one, and it is settled who counts.
///
/// The streams that stay keep their numbers and their order, ahead of the
/// new ones. Nothing is played into but what is wanted, and all of that is
/// but for what could not be opened; each node once, if it was so before.
/// Whoever counted goes on counting if it stays, and otherwise one that is
/// there does.
pub proof fn changing_the_targets(
    start: Player,
    wanted: Seq<String>,
    kept: Player,
    turns: Seq<Turned>,
    done: Player,
)
    requires
        start.wf(),
        start.has_kept(&kept, text::texts(wanted)),
        all_go(kept, wanted, turns),
        after_turns(kept, turns).has_settled(&done),
    ensures
        ({
            let names = text::texts(wanted);
            let stays = start.outputs().filter(into_one_of(names));
            &&& done.wf()
            &&& stays.is_prefix_of(done.outputs())
            &&& forall|name: Seq<char>| #[trigger]
                plays_into(done.outputs(), name) ==> names.contains(name)
            &&& start.next() + wanted.len() <= u64::MAX ==> forall|i: int|
                0 <= i < wanted.len() && (turns[i].id is None || turns[i].works) ==> plays_into(
                    done.outputs(),
                    (#[trigger] wanted[i])@,
                )
            &&& each_once(start.outputs()) ==> each_once(done.outputs())
            &&& numbered(stays, start.counting()) ==> done.counting() == start.counting()
            &&& done.outputs().len() > 0 ==> numbered(done.outputs(), done.counting())
        }),
{
    let names = text::texts(wanted);
    let keep = into_one_of(names);
    let stays = start.outputs().filter(keep);
    let last = after_turns(kept, turns);
    let outputs = done.outputs();
    keeping_keeps_apart(start, kept, names);
    turns_add_what_is_wanted(kept, wanted, turns);
    assert(outputs.subrange(0, stays.len() as int) =~= stays);
    assert forall|name: Seq<char>| #[trigger] plays_into(outputs, name) implies names.contains(
        name,
    ) by {
        let k = choose|k: int| 0 <= k < outputs.len() && (#[trigger] outputs[k]).target@ == name;
        if k < stays.len() {
            assert(outputs.subrange(0, stays.len() as int)[k] == stays[k]);
            assert(stays.contains(stays[k]));
            lists::filter_contains(start.outputs(), keep, stays[k]);
        }
    }
    if start.next() + wanted.len() <= u64::MAX {
        assert forall|i: int| 0 <= i < wanted.len() && (turns[i].id is None
            || turns[i].works) implies plays_into(outputs, (#[trigger] wanted[i])@) by {
            what_works_is_played_into(kept, wanted, turns, i);
        }
    }
    if numbered(stays, start.counting()) {
        let k = choose|k: int|
            0 <= k < stays.len() && (#[trigger] stays[k]).id == start.counting();
        assert(outputs.subrange(0, stays.len() as int)[k] == stays[k]);
        assert(outputs[k].id == start.counting());
        assert(numbered(last.outputs(), last.counting()));
    }
    if outputs.len() > 0 {
        exactly_one_stream_counts(last);
    }
}

/// Where every stream can be opened, the nodes that are played into after a
/// change are those that are wanted, and each is played into once.
pub proof fn the_targets_are_what_is_wanted(
    start: Player,
    wanted: Seq<String>,
    kept: Player,
    turns: Seq<Turned>,
    done: Player,
)
    requires
        start.wf(),
        each_once(start.outputs()),
        start.next() + wanted.len() <= u64::MAX,
        start.has_kept(&kept, text::texts(wanted)),
        all_go(kept, wanted, turns),
        forall|i: int| 0 <= i < turns.len() ==> (#[trigger] turns[i]).works,
        after_turns(kept, turns).has_settled(&done),
    ensures
        each_once(done.outputs()),
        forall|name: Seq<char>| #[trigger]
            plays_into(done.outputs(), name) == text::texts(wanted).contains(name),
{
    let names = text::texts(wanted);
    changing_the_targets(start, wanted, kept, turns, done);
    assert forall|name: Seq<char>| names.contains(name) implies #[trigger] plays_into(
        done.outputs(),
        name,
    ) by {
        let i = names.index_of(name);
        assert(names[i] == wanted[i]@);
        assert(turns[i].works);
    }
}

/// Keeping only some streams keeps the rest of them in order.
proof fn keeping_keeps_apart(start: Player, kept: Player, wanted: Seq<Seq<char>>)
    requires
        start.wf(),
        start.has_kept(&kept, wanted),
    ensures
        kept.wf(),
        each_once(start.outputs()) ==> each_once(kept.outputs()),
{
    let keep = into_one_of(wanted);
    let (all, some) = (start.outputs(), kept.outputs());
    lists::filter_keeps_apart(all, keep, |o: Output| o.id);
    if each_once(all) {
        lists::filter_keeps_apart(all, keep, |o: Output| o.target@);
    }
    assert forall|i: int| 0 <= i < some.len() implies (#[trigger] some[i]).id < kept.next() by {
        assert(some.contains(some[i]));
        lists::filter_contains(all, keep, some[i]);
        let k = all.index_of(some[i]);
        assert(all[k].id < start.next());
    }
}

/// Nothing is lost or played twice: what is drawn and what is left make up
/// the queue, but for the silence that completes a last frame.
pub proof fn drawing_splits_the_queue(queue: Seq<Single>, len: nat)
    ensures
        ({
            let all = drawn(queue, len) + left_over(queue, len);
            &&& queue.is_prefix_of(all)
            &&& all.len() <= queue.len() + 1
            &&& queue.len() % 2 == 0 ==> all == queue
        }),
{
    let all = drawn(queue, len) + left_over(queue, len);
    assert(all.subrange(0, queue.len() as int) =~= queue);
    if queue.len() % 2 == 0 {
        assert(all =~= queue);
    }
}

/// What is laid out reads back sample by sample.
pub proof fn a_buffer_reads_back(samples: Seq<Single>, len: nat, i: int)
    requires
        samples.len() * 4 <= len,
        0 <= i < samples.len(),
    ensures
        laid_out(samples, len).len() == len,
        meters::sample(laid_out(samples, len), i) == samples[i],
    decreases samples.len(),
{
    let all = laid_out(samples, len);
    let first = bytes::little(samples[0].bits as nat, 4);
    let rest = laid_out(samples.skip(1), (len - 4) as nat);
    assert(bytes::limit(4) == 0x1_0000_0000) by {
        reveal_with_fuel(bytes::limit, 5);
    }
    bytes::a_written_number_reads_back(samples[0].bits as nat, 4);
    if samples.len() > 1 {
        a_buffer_reads_back(
            samples.skip(1),
            (len - 4) as nat,
            if i > 0 {
                i - 1
            } else {
                0
            },
        );
    }
    assert(rest.len() == len - 4);
    if i == 0 {
        assert(all.subrange(0, 4) =~= first);
    } else {
        assert(all.subrange(4 * i, 4 * i + 4) =~= rest.subrange(4 * (i - 1), 4 * (i - 1) + 4));
    }
}

/// Whatever was decoded, what is played of it is stereo.
pub proof fn what_is_played_is_stereo(decoded: Decoded)
    ensures
        decoded.stereo().len() % 2 == 0,
{
}

/// Of a buffer with two channels or more, every whole frame is played by its
/// first two samples, and nothing else is. A buffer of two channels is
/// played as it is.
pub proof fn a_frame_is_played_by_its_first_two(samples: Vec<Single>, mask: u32, frame: int)
    requires
        speakers(mask) >= 2,
    ensures
        ({
            let out = (Decoded::Interleaved { samples, channels: mask }).stereo();
            let c = speakers(mask) as int;
            let frames = samples@.len() as int / c;
            &&& out.len() == 2 * frames
            &&& 0 <= frame < frames ==> out[2 * frame] == samples@[frame * c] && out[2 * frame + 1]
                == samples@[frame * c + 1]
            &&& c == 2 && samples@.len() % 2 == 0 ==> out == samples@
        }),
{
    let out = (Decoded::Interleaved { samples, channels: mask }).stereo();
    let c = speakers(mask) as int;
    let frames = samples@.len() as int / c;
    assert(frames >= 0) by (nonlinear_arith)
        requires
            frames == samples@.len() as int / c,
            c >= 2,
            samples@.len() >= 0,
    ;
    if 0 <= frame < frames {
        assert((2 * frame) / 2 == frame && (2 * frame) % 2 == 0);
        assert((2 * frame + 1) / 2 == frame && (2 * frame + 1) % 2 == 1);
    }
    if c == 2 && samples@.len() % 2 == 0 {
        assert forall|i: int| 0 <= i < out.len() implies #[trigger] out[i] == samples@[i] by {
            assert((i / 2) * 2 + i % 2 == i);
        }
        assert(out =~= samples@);
    }
}

/// A mono buffer is played on both sides, sample by sample.
pub proof fn mono_is_played_on_both_sides(samples: Vec<Single>, mask: u32, i: int)
    requires
        speakers(mask) < 2,
    ensures
        ({
            let out = (Decoded::Interleaved { samples, channels: mask }).stereo();
            &&& out.len() == 2 * samples@.len()
            &&& 0 <= i < samples@.len() ==> out[2 * i] == samples@[i] && out[2 * i + 1]
                == samples@[i]
        }),
{
    if 0 <= i < samples@.len() {
        assert((2 * i) / 2 == i && (2 * i + 1) / 2 == i);
    }
}

/// Planes are played left then right, frame by frame. One plane alone is
/// played on both sides, as far as it goes, and none at all is silence.
pub proof fn planes_are_played_left_then_right(planes: Vec<Vec<Single>>, frames: usize, i: int)
    ensures
        ({
            let out = (Decoded::Planes { planes, frames }).stereo();
            let shown = if planes@.len() == 1 && planes@[0]@.len() < frames {
                planes@[0]@.len()
            } else {
                frames as nat
            };
            &&& planes@.len() == 0 ==> out.len() == 0
            &&& planes@.len() > 0 ==> out.len() == 2 * shown
            &&& planes@.len() > 0 && 0 <= i < shown ==> out[2 * i] == planes@[0]@[i]
            &&& planes@.len() == 1 && 0 <= i < shown ==> out[2 * i + 1] == planes@[0]@[i]
            &&& planes@.len() > 1 && 0 <= i < shown ==> out[2 * i + 1] == planes@[1]@[i]
        }),
{
    assert((2 * i) / 2 == i && (2 * i) % 2 == 0);
    assert((2 * i + 1) / 2 == i && (2 * i + 1) % 2 == 1);
}

/// A draw takes whole frames of two samples of four bytes: as many as there
/// is room for, or as many as are waiting, an odd sample at the end made up
/// with silence. What it takes is the front of the queue, and what stays
/// behind is the rest.
pub proof fn a_draw_fills_the_room(queue: Seq<Single>, len: nat, i: int)
    ensures
        ({
            let taken = drawn(queue, len);
            let left = left_over(queue, len);
            let fits = 2 * (len / 8);
            &&& taken.len() % 2 == 0
            &&& taken.len() <= fits
            &&& queue.len() >= fits ==> taken.len() == fits
            &&& queue.len() < fits ==> taken.len() == queue.len() + queue.len() % 2
            &&& left.len() == (if queue.len() > taken.len() {
                queue.len() - taken.len()
            } else {
                0
            })
            &&& 0 <= i < taken.len() && i < queue.len() ==> taken[i] == queue[i]
            &&& queue.len() <= i < taken.len() ==> taken[i] == (Single { bits: 0 })
            &&& 0 <= i < left.len() ==> left[i] == queue[taken.len() + i]
        }),
{
    assert(len / 4 / 2 == len / 8);
}

/// Behind the samples, a buffer is silent to its end.
pub proof fn a_buffer_ends_in_silence(samples: Seq<Single>, len: nat, i: int)
    requires
        samples.len() * 4 <= i < len,
    ensures
        laid_out(samples, len)[i] == 0,
    decreases samples.len(),
{
    if samples.len() > 0 {
        bytes::little_len(samples[0].bits as nat, 4);
        let rest = laid_out(samples.skip(1), (len - 4) as nat);
        a_buffer_ends_in_silence(samples.skip(1), (len - 4) as nat, i - 4);
        if samples.len() > 1 {
            a_buffer_reads_back(samples.skip(1), (len - 4) as nat, 0);
        }
        assert(rest.len() == len - 4);
        assert(laid_out(samples, len)[i] == rest[i - 4]);
    }
}

/// A time in seconds and frames is the number of frames it was worked out
/// from, the odd frames fewer than a second's.
pub proof fn seconds_and_frames_make_the_whole(frames: u64, rate: u32)
    requires
        rate > 0,
    ensures
        ({
            let t = seconds(frames as nat, rate as nat);
            &&& t.secs * rate + t.frames == frames
            &&& t.frames < rate
        }),
{
    let q = frames as nat / rate as nat;
    let r = frames as nat % rate as nat;
    assert(q * rate as nat + r == frames && 0 <= r < rate && q <= frames) by (nonlinear_arith)
        requires
            q == frames as nat / rate as nat,
            r == frames as nat % rate as nat,
            rate > 0,
    ;
}

/// The longest of some queues is as long as every one of them, and is one of
/// them unless there is none.
pub proof fn the_longest_is_the_longest(lens: Seq<usize>, i: int)
    ensures
        0 <= i < lens.len() ==> lens[i] <= longest(lens),
        lens.len() == 0 ==> longest(lens) == 0,
        lens.len() > 0 ==> exists|k: int|
            0 <= k < lens.len() && #[trigger] lens[k] == longest(lens),
    decreases lens.len(),
{
    if lens.len() > 0 {
        let shorter = lens.drop_last();
        the_longest_is_the_longest(shorter, i);
        if lens.last() > longest(shorter) {
            assert(lens[lens.len() - 1] == longest(lens));
        } else if shorter.len() > 0 {
            let k = choose|k: int|
                0 <= k < shorter.len() && #[trigger] shorter[k] == longest(shorter);
            assert(lens[k] == longest(lens));
        } else {
            assert(lens[0] == longest(lens));
        }
    }
}

/// A target is given a stream exactly where it has none and there is a
/// number left to give. The number was never given before, and asking
/// changes nothing else.
pub proof fn a_target_is_opened_once(
    before: Player,
    after: Player,
    target: Seq<char>,
    id: Option<u64>,
)
    requires
        before.wf(),
        before.has_asked(&after, target, id),
    ensures
        id is Some == ((forall|i: int|
            0 <= i < before.outputs().len() ==> (#[trigger] before.outputs()[i]).target@ != target)
            && before.next() < u64::MAX),
        id matches Some(n) ==> !numbered(before.outputs(), n) && n < after.next(),
        before.next() <= after.next(),
        after.outputs() == before.outputs(),
        after.counting() == before.counting(),
{
}

/// Changing what is wanted keeps exactly the streams into what is wanted
/// still, and who counts is settled afterwards: the one that did where it is
/// still there, else the first.
pub proof fn what_is_not_wanted_goes(
    before: Player,
    after: Player,
    wanted: Seq<Seq<char>>,
    output: Output,
)
    requires
        before.has_kept(&after, wanted),
    ensures
        after.outputs().contains(output) == (before.outputs().contains(output) && wanted.contains(
            output.target@,
        )),
        heir(after.outputs(), before.counting()) == (if (exists|i: int|
            0 <= i < after.outputs().len() && (#[trigger] after.outputs()[i]).id
                == before.counting()) || after.outputs().len() == 0 {
            before.counting()
        } else {
            after.outputs()[0].id
        }),
{
    crate::lists::filter_contains(before.outputs(), into_one_of(wanted), output);
}

/// A player's stream is told where to play, goes by one name, says which
/// output it is for, and stays where it was put exactly where it plays into
/// one of ours.
pub proof fn a_stream_is_told_where_to_play(target: Seq<char>)
    ensures
        ({
            let list = output_properties(target);
            let ours = text::begins(target, "pipemeter_"@);
            &&& props::value_of(list, "target.object"@) == Some(target)
            &&& props::value_of(list, "node.name"@) == Some("pipemeter_deck_player"@)
            &&& props::value_of(list, "node.description"@) == Some(
                "PipeMeter Player -> "@ + target,
            )
            &&& props::value_of(list, "media.type"@) == Some("Audio"@)
            &&& props::value_of(list, "media.category"@) == Some("Playback"@)
            &&& props::value_of(list, "media.role"@) == Some("Music"@)
            &&& ours ==> props::value_of(list, "stream.dont-reconnect"@) == Some("true"@)
            &&& ours ==> props::value_of(list, "stream.capture.sink"@) == Some("true"@)
            &&& !ours ==> props::value_of(list, "stream.dont-reconnect"@) is None
            &&& !ours ==> props::value_of(list, "stream.capture.sink"@) is None
        }),
{
    let list = output_properties(target);
    reveal_strlit("media.type");
    reveal_strlit("media.category");
    reveal_strlit("media.role");
    reveal_strlit("target.object");
    reveal_strlit("node.name");
    reveal_strlit("node.description");
    reveal_strlit("stream.dont-reconnect");
    reveal_strlit("stream.capture.sink");
    assert("media.type"@[6] == 't' && "media.role"@[6] == 'r');
    assert("media.type"@.len() == 10 && "media.role"@.len() == 10);
    assert("media.category"@.len() == 14 && "target.object"@.len() == 13);
    assert("node.name"@.len() == 9 && "node.description"@.len() == 16);
    assert("stream.dont-reconnect"@.len() == 21 && "stream.capture.sink"@.len() == 19);
    props::stands_first(list, 0);
    props::stands_first(list, 1);
    props::stands_first(list, 2);
    props::stands_first(list, 3);
    props::stands_first(list, 4);
    props::stands_first(list, 5);
    if text::begins(target, "pipemeter_"@) {
        props::stands_first(list, 6);
        props::stands_first(list, 7);
    } else {
        props::the_first_of_a_name_counts(list, "stream.dont-reconnect"@);
        props::the_first_of_a_name_counts(list, "stream.capture.sink"@);
    }
}

/// A stream that was opened is listed last, by its target and its number,
/// and nothing else changes.
pub proof fn an_opened_stream_is_listed(before: Player, after: Player, target: String, id: u64)
    requires
        before.has_opened(&after, target, id),
    ensures
        after.outputs().len() == before.outputs().len() + 1,
        after.outputs().last().target@ == target@,
        after.outputs().last().id == id,
        after.outputs().drop_last() == before.outputs(),
        after.counting() == before.counting(),
        after.next() == before.next(),
{
    assert(after.outputs().drop_last() =~= before.outputs());
}

/// A frame is two samples of four bytes, and the fader's bottom is sixty
/// below nothing.
pub proof fn a_frame_is_eight_bytes(len: nat)
    ensures
        STRIDE == 8,
        8 * room(len) <= len < 8 * room(len) + 8,
        (Single { bits: SILENT_DB }).is_negative(),
        (Single { bits: SILENT_DB }).magnitude() == 0x4270_0000,
        FULL_PAUSE == 15,
        END_PAUSE == 50,
{
}

/// A decoder that is to stop stops. Otherwise it waits as long as some queue
/// holds more than a second of stereo, and reads on when none does.
pub proof fn a_decoder_waits_for_a_full_queue(
    stopping: bool,
    lens: Vec<usize>,
    rate: u32,
    i: int,
    turn: Turn,
)
    requires
        call_ensures(decoder_turn, (stopping, &lens, rate), turn),
    ensures
        stopping ==> turn == Turn::Stop,
        !stopping && 0 <= i < lens@.len() && lens@[i] > 2 * rate ==> turn == Turn::Wait(15),
        !stopping && (forall|k: int| 0 <= k < lens@.len() ==> #[trigger] lens@[k] <= 2 * rate)
            ==> turn == Turn::Read,
{
    the_longest_is_the_longest(lens@, i);
}

/// A packet of the track is decoded, one of another is passed over, and the
/// end is waited at.
pub proof fn only_its_own_packets_are_decoded(packet: Option<u32>, track: u32, next: Heard)
    requires
        call_ensures(heard, (packet, track), next),
    ensures
        next == Heard::Decode <==> packet == Some(track),
        next == Heard::Ended(50) <==> packet is None,
        next == Heard::Skip <==> packet is Some && packet != Some(track),
{
}

/// At the bottom of the fader and below it there is silence, above it what
/// the fader comes to.
pub proof fn the_bottom_is_silence(db: Single, linear: Single, gain: Single)
    requires
        call_ensures(player_gain, (db, linear), gain),
    ensures
        db.is_negative() && 0x4270_0000 <= db.magnitude() <= 0x7f80_0000 ==> gain.bits == 0,
        !db.is_negative() || db.magnitude() < 0x4270_0000 || db.is_nan() ==> gain == linear,
{
}

/// What is played has the channels of the track, two at most.
pub proof fn no_more_than_two_are_played(channels: u16, n: u32)
    requires
        call_ensures(playback_channels, (channels,), n),
    ensures
        n <= 2,
        channels <= 2 ==> n == channels,
        channels >= 2 ==> n == 2,
{
}

/// A track has the format it says; where it does not say, it is taken for
/// stereo at the usual rate and of unknown length.
pub proof fn a_track_is_taken_at_its_word(track: Track, r: (u32, u16, u64))
    requires
        call_ensures(track_format, (track,), r),
    ensures
        track.rate matches Some(rate) ==> r.0 == rate,
        track.rate is None ==> r.0 == 48_000,
        track.channels matches Some(mask) ==> r.1 == speakers(mask),
        track.channels is None ==> r.1 == 2,
        track.frames matches Some(n) ==> r.2 == n,
        track.frames is None ==> r.2 == 0,
{
}

/// Of two streams that render the same frames, at most one moves the
/// position, and by no more than it rendered.
pub proof fn one_stream_moves_the_position(
    a: u64,
    b: u64,
    primary: u64,
    frames: u64,
    one: u64,
    other: u64,
)
    requires
        call_ensures(counted, (a, primary, frames), one),
        call_ensures(counted, (b, primary, frames), other),
    ensures
        a == primary ==> one == frames,
        a != primary ==> one == 0,
        a != b ==> one + other <= frames,
{
}

/// What the deck shows is what the player last said, with no length where
/// none is known.
pub proof fn the_deck_shows_what_was_said(handle: StatusHandle, status: Status)
    requires
        call_ensures(StatusHandle::snapshot, (&handle,), status),
        handle.sample_rate <= u32::MAX,
    ensures
        status.position_frames == handle.position_frames,
        status.total_frames is Some == (handle.total_frames > 0),
        status.total_frames matches Some(n) ==> n == handle.total_frames,
        status.sample_rate == handle.sample_rate,
        status.channels == 2,
        status.is_playing == handle.playing,
        status.is_ended == handle.ended,
{
}

/// Whatever was decoded, what is appended of a frame of two channels or more
/// is its first two samples, in order, frame after frame.
pub proof fn what_is_appended_is_stereo(
    samples: Vec<Single>,
    mask: u32,
    frame: int,
    out: Vec<Single>,
)
    requires
        call_ensures(append_samples, (&Decoded::Interleaved { samples, channels: mask },), out),
        speakers(mask) >= 2,
    ensures
        out@.len() == 2 * (samples@.len() as int / speakers(mask) as int),
        0 <= frame < samples@.len() as int / speakers(mask) as int ==> out@[2 * frame]
            == samples@[frame * speakers(mask)] && out@[2 * frame + 1] == samples@[frame * speakers(
            mask,
        ) + 1],
{
    a_frame_is_played_by_its_first_two(samples, mask, frame);
}

/// A filled buffer is as long as it was to be and says how many whole frames
/// it has room for, in bytes, and how many of them are audio. A paused one is
/// silent from end to end and holds none.
pub proof fn a_buffer_says_how_much_it_holds(
    samples: Vec<Single>,
    len: usize,
    filled: Filled,
    silent: Filled,
    i: int,
)
    requires
        samples@.len() * 4 <= len <= u32::MAX,
        call_ensures(fill, (&samples, len), filled),
        call_ensures(paused, (len,), silent),
    ensures
        filled.bytes@.len() == len,
        filled.size % 8 == 0,
        filled.size <= len < filled.size + 8,
        filled.frames == samples@.len() / 2,
        0 <= i < samples@.len() ==> meters::sample(filled.bytes@, i) == samples@[i],
        samples@.len() * 4 <= i < len ==> filled.bytes@[i] == 0,
        silent.bytes@.len() == len,
        0 <= i < len ==> silent.bytes@[i] == 0,
        silent.size == len,
        silent.frames == 0,
{
    a_frame_is_eight_bytes(len as nat);
    if 0 <= i < samples@.len() {
        a_buffer_reads_back(samples@, len as nat, i);
    }
    if samples@.len() * 4 <= i < len {
        a_buffer_ends_in_silence(samples@, len as nat, i);
    }
}

/// The position and the length are shown in seconds at the track's rate;
/// where there is no rate the position is nothing, and where either is not
/// known there is no length.
pub proof fn times_are_shown_at_the_rate(status: Status, at: Length, long: Option<Length>)
    requires
        call_ensures(Status::position_seconds, (status,), at),
        call_ensures(Status::duration_seconds, (status,), long),
    ensures
        status.sample_rate == 0 ==> at.secs == 0 && at.frames == 0 && long is None,
        status.sample_rate > 0 ==> at.secs * status.sample_rate + at.frames
            == status.position_frames && at.frames < status.sample_rate,
        status.total_frames is None ==> long is None,
        status.sample_rate > 0 && status.total_frames is Some ==> {
            &&& long is Some
            &&& long->Some_0.secs * status.sample_rate + long->Some_0.frames
                == status.total_frames->Some_0
            &&& long->Some_0.frames < status.sample_rate
        },
{
    if status.sample_rate > 0 {
        seconds_and_frames_make_the_whole(status.position_frames, status.sample_rate);
        if status.total_frames is Some {
            seconds_and_frames_make_the_whole(
                status.total_frames->Some_0,
                status.sample_rate,
            );
        }
    }
}

} // verus!
