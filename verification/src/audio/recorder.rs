//! Recording a bus to a file.
//!
//! One capture stream, the same shape as a meter, but keeping the samples
//! instead of measuring them.
//!
//! The process callback runs on `PipeWire`'s realtime thread, where writing
//! to a file is not allowed: a disk that stalls would stall the audio graph
//! and every other application in it. So the callback only appends to a
//! buffer, and a plain thread drains it to disk.
//!
//! The drain swaps the whole buffer out under the lock and writes outside it,
//! so the realtime side never waits on a write, only on a pointer swap.

use vstd::prelude::*;

use crate::props;
use crate::single::Single;

use super::meters;

verus! {

/// How many channels a take has.
pub const CHANNELS: u16 = 2;

/// How long the drain sleeps when there is nothing to write, in
/// milliseconds.
pub const PAUSE: u64 = 20;

/// How a take's stream is asked for.
pub open spec fn take_properties(name: Seq<char>) -> Seq<(Seq<char>, Seq<char>)> {
    seq![
        ("media.type"@, "Audio"@),
        ("media.category"@, "Capture"@),
        ("media.role"@, "Production"@),
        ("stream.capture.sink"@, "true"@),
        ("target.object"@, name),
        ("node.name"@, "pipemeter_recorder"@),
    ]
}

/// What a take's stream is to be made with. The node is given by name:
/// handed a registry id it would match nothing, and record a header and no
/// audio at all.
pub fn properties(name: &str) -> (list: Vec<(String, String)>)
    ensures
        props::pairs(list@) == take_properties(name@),
{
    let mut list = props::none();
    props::put(&mut list, "media.type", "Audio");
    props::put(&mut list, "media.category", "Capture");
    props::put(&mut list, "media.role", "Production");
    props::put(&mut list, "stream.capture.sink", "true");
    props::put(&mut list, "target.object", name);
    props::put(&mut list, "node.name", "pipemeter_recorder");
    proof {
        assert(props::pairs(list@) =~= take_properties(name@));
    }
    list
}

/// The samples of a buffer, as many as are claimed and held.
pub open spec fn samples_in(bytes: Seq<u8>, size: u32) -> Seq<Single> {
    Seq::new(
        meters::readable(bytes, (size / 4) as nat),
        |i: int| meters::sample(bytes, i),
    )
}

/// Put a buffer's samples behind those that wait to be written. `size` is
/// how many bytes of the buffer were filled.
pub fn collect(pending: &mut Vec<Single>, bytes: &[u8], size: u32)
    ensures
        final(pending)@ == old(pending)@ + samples_in(bytes@, size),
{
    let claimed = size as usize / 4;
    let held = bytes.len() / 4;
    let n = if claimed < held {
        claimed
    } else {
        held
    };
    let ghost before = pending@;
    let ghost want = samples_in(bytes@, size);
    proof {
        assert(before + want.take(0) =~= before);
    }
    for i in 0..n
        invariant
            want == samples_in(bytes@, size),
            n == want.len(),
            n <= bytes@.len() / 4,
            pending@ == before + want.take(i as int),
    {
        pending.push(meters::read_sample(bytes, i));
        proof {
            assert(want.take(i + 1) =~= want.take(i as int).push(want[i as int]));
            assert((before + want.take(i as int)).push(want[i as int]) =~= before + want.take(
                i as int,
            ).push(want[i as int]));
        }
    }
    proof {
        assert(want.take(want.len() as int) =~= want);
    }
}

/// What the drain does next.
#[derive(Debug, Clone, Copy, PartialEq, Eq, Structural)]
pub enum Drain {
    /// Write the batch.
    Write,
    /// Sleep for so many milliseconds and look again.
    Sleep(u64),
    /// Finish the file.
    Finish,
}

/// What the drain does about what it found: a batch is always written, also
/// while the take is being stopped, so nothing that was captured is lost.
pub fn drain(waiting: usize, stopping: bool) -> (next: Drain)
    ensures
        next == (if waiting > 0 {
            Drain::Write
        } else if stopping {
            Drain::Finish
        } else {
            Drain::Sleep(PAUSE)
        }),
{
    if waiting > 0 {
        Drain::Write
    } else if stopping {
        Drain::Finish
    } else {
        Drain::Sleep(PAUSE)
    }
}

/// A take is told its node by name, listens to that node's monitor, and goes
/// by one name of its own.
pub proof fn a_take_listens_to_its_own_node(name: Seq<char>)
    ensures
        ({
            let list = take_properties(name);
            &&& props::value_of(list, "target.object"@) == Some(name)
            &&& props::value_of(list, "stream.capture.sink"@) == Some("true"@)
            &&& props::value_of(list, "node.name"@) == Some("pipemeter_recorder"@)
            &&& props::value_of(list, "media.type"@) == Some("Audio"@)
            &&& props::value_of(list, "media.category"@) == Some("Capture"@)
            &&& props::value_of(list, "media.role"@) == Some("Production"@)
        }),
{
    let list = take_properties(name);
    reveal_strlit("media.type");
    reveal_strlit("media.category");
    reveal_strlit("media.role");
    reveal_strlit("target.object");
    reveal_strlit("node.name");
    reveal_strlit("stream.capture.sink");
    assert("media.type"@[6] == 't' && "media.role"@[6] == 'r');
    assert("media.type"@.len() == 10 && "media.role"@.len() == 10);
    assert("media.category"@.len() == 14 && "target.object"@.len() == 13);
    assert("node.name"@.len() == 9 && "stream.capture.sink"@.len() == 19);
    props::stands_first(list, 0);
    props::stands_first(list, 1);
    props::stands_first(list, 2);
    props::stands_first(list, 3);
    props::stands_first(list, 4);
    props::stands_first(list, 5);
}

/// What the player lays out in a buffer, the recorder collects from it,
/// sample for sample and no more than was said to be there.
pub proof fn what_is_laid_out_is_collected(samples: Seq<Single>, len: nat, size: u32)
    requires
        size == 4 * samples.len(),
        size <= len,
    ensures
        samples_in(super::player::laid_out(samples, len), size) == samples,
{
    let bytes = super::player::laid_out(samples, len);
    let heard = samples_in(bytes, size);
    if samples.len() > 0 {
        super::player::a_buffer_reads_back(samples, len, 0);
    }
    assert(bytes.len() == len);
    meters::as_much_is_read_as_is_there(bytes, (size / 4) as nat, 0);
    assert(heard.len() == samples.len());
    assert forall|i: int| 0 <= i < heard.len() implies #[trigger] heard[i] == samples[i] by {
        super::player::a_buffer_reads_back(samples, len, i);
    }
    assert(heard =~= samples);
}

/// A take is stereo, and an idle writer looks again fifty times a second.
pub proof fn a_take_is_stereo()
    ensures
        CHANNELS == 2,
        PAUSE * 50 == 1000,
{
}

/// A writer writes whatever is waiting before it looks whether it is to
/// stop, so nothing that was taken is lost; with nothing waiting it finishes
/// or sleeps.
pub proof fn nothing_is_left_unwritten(waiting: usize, stopping: bool, next: Drain)
    requires
        call_ensures(drain, (waiting, stopping), next),
    ensures
        next is Write <==> waiting > 0,
        next is Finish <==> waiting == 0 && stopping,
        next is Sleep <==> waiting == 0 && !stopping,
        next matches Drain::Sleep(ms) ==> ms == 20,
{
}

} // verus!
