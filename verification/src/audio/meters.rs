//! Level metering.
//!
//! One capture stream per metered node, reading that node's monitor ports.
//! The process callback runs on `PipeWire`'s realtime thread, so it does the
//! least possible work: a peak per channel, written into a shared table. All
//! smoothing and decay happens on the UI side, where being late costs
//! nothing.
//!
//! Attaching a stream per node is not free, so only nodes actually shown on a
//! strip are metered rather than everything in the graph.

use vstd::prelude::*;

use crate::bytes;
use crate::props;
use crate::single::Single;
use crate::table::Table;

verus! {

/// What to meter: which node, and whether it is one with a monitor.
#[derive(Debug, Clone)]
pub struct Target {
    pub id: u32,
    pub name: String,
    /// Sinks are read through their monitor; sources are read directly.
    pub is_sink: bool,
}

/// A target as the contracts see it.
pub struct TargetText {
    pub id: u32,
    pub name: Seq<char>,
    pub is_sink: bool,
}

impl View for Target {
    type V = TargetText;

    open spec fn view(&self) -> TargetText {
        TargetText { id: self.id, name: self.name@, is_sink: self.is_sink }
    }
}

/// Peak level per channel for each metered node, keyed by node id.
pub type Levels = Table<u32, (Single, Single)>;

/// How a meter's stream is asked for.
pub open spec fn meter_properties(target: TargetText) -> Seq<(Seq<char>, Seq<char>)> {
    let list = seq![
        ("media.type"@, "Audio"@),
        ("media.category"@, "Capture"@),
        ("media.role"@, "Music"@),
        ("target.object"@, target.name),
        ("node.dont-reconnect"@, "true"@),
        ("node.name"@, "pipemeter_meter"@),
    ];
    if target.is_sink {
        list.push(("stream.capture.sink"@, "true"@))
    } else {
        list
    }
}

impl Target {
    /// What the meter's stream is to be made with.
    pub fn properties(&self) -> (list: Vec<(String, String)>)
        ensures
            props::pairs(list@) == meter_properties(self@),
    {
        let mut list = props::none();
        props::put(&mut list, "media.type", "Audio");
        props::put(&mut list, "media.category", "Capture");
        props::put(&mut list, "media.role", "Music");
        // By name, not by id. An id is a number the session manager is free
        // to ignore when it thinks it knows better, and it did: every meter
        // ended up on the default sink's monitor, so each strip showed
        // whatever the desktop was playing rather than its own signal.
        props::put(&mut list, "target.object", self.name.as_str());
        // And having said which node, refuse to be moved off it. Without
        // this the session manager reconnects the stream elsewhere the
        // moment the default device changes.
        props::put(&mut list, "node.dont-reconnect", "true");
        // Keep our own meters out of the strips' application lists.
        props::put(&mut list, "node.name", "pipemeter_meter");
        // Only a sink has a monitor to read. Asking for one on a source
        // makes the request meaningless, which is how it came to be ignored.
        if self.is_sink {
            props::put(&mut list, "stream.capture.sink", "true");
        }
        proof {
            assert(props::pairs(list@) =~= meter_properties(self@));
        }
        list
    }
}

// ---------------------------------------------------------------------
// Peaks

/// The `i`th sample in a buffer of little-endian singles.
pub open spec fn sample(bytes: Seq<u8>, i: int) -> Single {
    Single { bits: bytes::amount(bytes.subrange(4 * i, 4 * i + 4)) as u32 }
}

/// How many samples there are to read: as many as are claimed and held.
pub open spec fn readable(bytes: Seq<u8>, samples_len: nat) -> nat {
    let held = bytes.len() / 4;
    if samples_len < held {
        samples_len
    } else {
        held
    }
}

/// The greatest magnitude of a channel among the first `n` samples. What is
/// not a number counts for nothing.
pub open spec fn loudest(bytes: Seq<u8>, n: nat, channels: int, channel: int) -> int
    decreases n,
{
    if n == 0 || n <= channel {
        0
    } else {
        let so_far = loudest(bytes, (n - 1) as nat, channels, channel);
        let s = sample(bytes, n - 1);
        if (n - 1 - channel) % channels == 0 && !s.is_nan() && s.magnitude() > so_far {
            s.magnitude()
        } else {
            so_far
        }
    }
}

/// Between one sample of a channel and the next nothing counts.
proof fn nothing_between(bytes: Seq<u8>, from: int, to: int, channels: int, channel: int)
    requires
        channels > 0,
        0 <= channel <= from <= to <= from + channels - 1,
        from > channel ==> (from - 1 - channel) % channels == 0,
        from == channel ==> to == from,
    ensures
        loudest(bytes, to as nat, channels, channel) == loudest(
            bytes,
            from as nat,
            channels,
            channel,
        ),
    decreases to - from,
{
    if to > from {
        nothing_between(bytes, from, to - 1, channels, channel);
        let a = from - 1 - channel;
        let d = to - from;
        assert(to - 1 - channel == a + d);
        vstd::arithmetic::div_mod::lemma_fundamental_div_mod(a, channels);
        assert((a + d) % channels == d) by {
            vstd::arithmetic::div_mod::lemma_mod_adds(a, d, channels);
            vstd::arithmetic::div_mod::lemma_small_mod(d as nat, channels as nat);
        }
    }
}

/// Read the `i`th sample.
pub fn read_sample(bytes: &[u8], i: usize) -> (s: Single)
    requires
        4 * i + 4 <= bytes@.len(),
    ensures
        s == sample(bytes@, i as int),
{
    let held = bytes.len();
    let at: usize = i * 4;
    let bits: u32 = bytes[at] as u32 + bytes[at + 1] as u32 * 0x100 + bytes[at + 2] as u32
        * 0x1_0000 + bytes[at + 3] as u32 * 0x100_0000;
    proof {
        let piece = bytes@.subrange(at as int, at + 4);
        let (one, two, three) = (piece.skip(1), piece.skip(1).skip(1), piece.skip(1).skip(1).skip(1));
        assert(three.skip(1).len() == 0);
        assert(bytes::amount(three.skip(1)) == 0);
        assert(bytes::amount(three) == bytes@[at + 3]);
        assert(bytes::amount(two) == bytes@[at + 2] + 256 * bytes::amount(three));
        assert(bytes::amount(one) == bytes@[at + 1] + 256 * bytes::amount(two));
        assert(bytes::amount(piece) == bytes@[at as int] + 256 * bytes::amount(one));
    }
    Single { bits }
}

fn peak_of(bytes: &[u8], samples_len: usize, channels: usize, channel: usize) -> (peak: Single)
    requires
        channels > 0,
    ensures
        peak.bits == loudest(
            bytes@,
            readable(bytes@, samples_len as nat),
            channels as int,
            channel as int,
        ),
{
    let held = bytes.len() / 4;
    let n = if samples_len < held {
        samples_len
    } else {
        held
    };
    let mut max: u32 = 0;
    if channel >= n {
        return Single { bits: 0 };
    }
    let mut i: usize = channel;
    let ghost mut seen: int = channel as int;
    proof {
        vstd::arithmetic::div_mod::lemma_small_mod(0, channels as nat);
    }
    loop
        invariant_except_break
            i < n,
            channel <= seen <= i,
            seen == channel ==> i == channel,
            seen > channel ==> i == seen - 1 + channels,
            (i - channel) % (channels as int) == 0,
            seen > channel ==> (seen - 1 - channel) % (channels as int) == 0,
            max == loudest(bytes@, seen as nat, channels as int, channel as int),
        invariant
            channels > 0,
            n <= bytes@.len() / 4,
        ensures
            max == loudest(bytes@, n as nat, channels as int, channel as int),
        decreases n - i,
    {
        let s = read_sample(bytes, i);
        let magnitude = s.abs().bits;
        proof {
            nothing_between(bytes@, seen, i as int, channels as int, channel as int);
        }
        if magnitude <= crate::single::INFINITY && magnitude > max {
            max = magnitude;
        }
        proof {
            seen = i + 1;
        }
        if channels >= n - i {
            proof {
                nothing_between(bytes@, seen, n as int, channels as int, channel as int);
            }
            break ;
        }
        proof {
            vstd::arithmetic::div_mod::lemma_mod_add_multiples_vanish(
                i - channel,
                channels as int,
            );
        }
        i = i + channels;
    }
    Single { bits: max }
}

/// Absolute peak of the first two channels in an interleaved buffer of
/// single-precision samples.
///
/// Mono is reported on both, so a mono source drives both meter columns
/// rather than leaving one dead.
pub fn peak_per_channel(bytes: &[u8], samples_len: usize, channels: usize) -> (peaks: (
    Single,
    Single,
))
    requires
        channels > 0,
    ensures
        ({
            let n = readable(bytes@, samples_len as nat);
            &&& peaks.0.bits == loudest(bytes@, n, channels as int, 0)
            &&& peaks.1.bits == (if channels > 1 {
                loudest(bytes@, n, channels as int, 1)
            } else {
                loudest(bytes@, n, channels as int, 0)
            })
        }),
{
    let left = peak_of(bytes, samples_len, channels, 0);
    let right = if channels > 1 {
        peak_of(bytes, samples_len, channels, 1)
    } else {
        left
    };
    (left, right)
}

/// What one buffer says of a node's level: nothing where the format is not
/// known yet. `size` is how many bytes of the buffer were filled.
pub fn reading(bytes: &[u8], size: u32, channels: u32) -> (peaks: Option<(Single, Single)>)
    ensures
        peaks is Some == (channels > 0),
        peaks matches Some(p) ==> {
            let n = readable(bytes@, (size / 4) as nat);
            &&& p.0.bits == loudest(bytes@, n, channels as int, 0)
            &&& p.1.bits == (if channels > 1 {
                loudest(bytes@, n, channels as int, 1)
            } else {
                loudest(bytes@, n, channels as int, 0)
            })
        },
{
    if channels == 0 {
        return None;
    }
    Some(peak_per_channel(bytes, size as usize / 4, channels as usize))
}

// ---------------------------------------------------------------------
// Laws

/// No sample of a channel is louder than the channel's peak, and the peak is
/// never above infinity: what is not a number cannot be one.
pub proof fn a_peak_is_the_greatest(bytes: Seq<u8>, n: nat, channels: int, channel: int, i: int)
    requires
        channels > 0,
        0 <= channel <= i < n,
        (i - channel) % channels == 0,
        !sample(bytes, i).is_nan(),
    ensures
        sample(bytes, i).magnitude() <= loudest(bytes, n, channels, channel),
    decreases n,
{
    if i < n - 1 {
        a_peak_is_the_greatest(bytes, (n - 1) as nat, channels, channel, i);
    }
}

/// A peak is the magnitude of one of the channel's samples, or silence.
pub proof fn a_peak_was_heard(bytes: Seq<u8>, n: nat, channels: int, channel: int)
    requires
        channels > 0,
        0 <= channel,
    ensures
        loudest(bytes, n, channels, channel) == 0 || exists|i: int|
            channel <= i < n && (i - channel) % channels == 0 && !(#[trigger] sample(
                bytes,
                i,
            )).is_nan() && sample(bytes, i).magnitude() == loudest(bytes, n, channels, channel),
    decreases n,
{
    if n > channel {
        a_peak_was_heard(bytes, (n - 1) as nat, channels, channel);
        let s = sample(bytes, n - 1);
        if loudest(bytes, n, channels, channel) != loudest(
            bytes,
            (n - 1) as nat,
            channels,
            channel,
        ) {
            assert(s.magnitude() == loudest(bytes, n, channels, channel));
        }
    }
}

/// A meter is told its node by name, stays on it, keeps out of the way, and
/// asks for a monitor exactly where the node has one.
pub proof fn a_meter_listens_to_its_own_node(target: TargetText)
    ensures
        ({
            let list = meter_properties(target);
            &&& props::value_of(list, "target.object"@) == Some(target.name)
            &&& props::value_of(list, "node.dont-reconnect"@) == Some("true"@)
            &&& props::value_of(list, "node.name"@) == Some("pipemeter_meter"@)
            &&& props::value_of(list, "media.type"@) == Some("Audio"@)
            &&& props::value_of(list, "media.category"@) == Some("Capture"@)
            &&& props::value_of(list, "media.role"@) == Some("Music"@)
            &&& target.is_sink ==> props::value_of(list, "stream.capture.sink"@) == Some("true"@)
            &&& !target.is_sink ==> props::value_of(list, "stream.capture.sink"@) is None
        }),
{
    let list = meter_properties(target);
    reveal_strlit("media.type");
    reveal_strlit("media.category");
    reveal_strlit("media.role");
    reveal_strlit("target.object");
    reveal_strlit("node.dont-reconnect");
    reveal_strlit("node.name");
    reveal_strlit("stream.capture.sink");
    assert("media.type"@[6] == 't' && "media.role"@[6] == 'r');
    assert("media.type"@.len() == 10 && "media.role"@.len() == 10);
    assert("media.category"@.len() == 14 && "target.object"@.len() == 13);
    assert("node.dont-reconnect"@.len() == 19 && "node.name"@.len() == 9);
    assert("stream.capture.sink"@.len() == 19 && "stream.capture.sink"@[0] == 's');
    assert("node.dont-reconnect"@[0] == 'n');
    props::stands_first(list, 0);
    props::stands_first(list, 1);
    props::stands_first(list, 2);
    props::stands_first(list, 3);
    props::stands_first(list, 4);
    props::stands_first(list, 5);
    if target.is_sink {
        props::stands_first(list, 6);
    } else {
        props::the_first_of_a_name_counts(list, "stream.capture.sink"@);
    }
}

/// As many samples are read as were promised, or as the bytes hold where
/// they hold fewer. Each is four bytes, the lowest first.
pub proof fn as_much_is_read_as_is_there(bytes: Seq<u8>, promised: nat, i: int)
    ensures
        readable(bytes, promised) <= promised,
        4 * readable(bytes, promised) <= bytes.len(),
        readable(bytes, promised) < promised ==> 4 * readable(bytes, promised) + 4 > bytes.len(),
        0 <= i < readable(bytes, promised) ==> sample(bytes, i).bits == bytes[4 * i] + 256
            * bytes[4 * i + 1] + 0x1_0000 * bytes[4 * i + 2] + 0x100_0000 * bytes[4 * i + 3],
{
    if 0 <= i < readable(bytes, promised) {
        let word = bytes.subrange(4 * i, 4 * i + 4);
        reveal_with_fuel(bytes::amount, 5);
        assert(word.skip(1).skip(1).skip(1).skip(1).len() == 0);
        assert(word[0] == bytes[4 * i] && word.skip(1)[0] == bytes[4 * i + 1]);
        assert(word.skip(1).skip(1)[0] == bytes[4 * i + 2]);
        assert(word.skip(1).skip(1).skip(1)[0] == bytes[4 * i + 3]);
    }
}

/// Left is the loudest of the first channel and right of the second; a mono
/// buffer drives both alike, and nothing is read of a buffer of no channels.
pub proof fn each_side_has_its_own_peak(
    bytes: &[u8],
    size: u32,
    channels: u32,
    peaks: Option<(Single, Single)>,
    i: int,
)
    requires
        call_ensures(reading, (bytes, size, channels), peaks),
    ensures
        peaks is Some <==> channels > 0,
        channels == 1 ==> peaks->Some_0.0.bits == peaks->Some_0.1.bits,
        channels > 0 && 0 <= i < readable(bytes@, (size / 4) as nat) && !sample(
            bytes@,
            i,
        ).is_nan() && i % channels as int == 0 ==> sample(bytes@, i).magnitude()
            <= peaks->Some_0.0.bits,
        channels > 1 && 0 <= i < readable(bytes@, (size / 4) as nat) && !sample(
            bytes@,
            i,
        ).is_nan() && i % channels as int == 1 ==> sample(bytes@, i).magnitude()
            <= peaks->Some_0.1.bits,
{
    let n = readable(bytes@, (size / 4) as nat);
    let c = channels as int;
    if channels > 0 && 0 <= i < n && !sample(bytes@, i).is_nan() && i % c == 0 {
        assert((i - 0) % c == 0);
        a_peak_is_the_greatest(bytes@, n, c, 0, i);
    }
    if channels > 1 && 0 <= i < n && !sample(bytes@, i).is_nan() && i % c == 1 {
        assert((i - 1) % c == 0 && i >= 1) by (nonlinear_arith)
            requires
                i % c == 1,
                c > 1,
                i >= 0,
        ;
        a_peak_is_the_greatest(bytes@, n, c, 1, i);
    }
}

} // verus!
