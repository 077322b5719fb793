//! Keeping one copy of the mixer running at a time.
//!
//! Two copies is not a cosmetic problem. Both would claim the same virtual
//! sinks, both would push their own idea of every fader down to the same
//! nodes, and both would fight over the routing matrix: the second one to
//! start would silently undo whatever the first had set.
//!
//! Held by an advisory lock on a file in the runtime directory rather than
//! by a pid file. A lock is released by the kernel when the process ends,
//! however it ends, so a crash cannot leave a stale one behind claiming the
//! mixer is already running.

use vstd::prelude::*;

use crate::text;

verus! {

/// The directory the lock lives in.
pub open spec fn lock_dir(runtime: Option<Seq<char>>, temp: Seq<char>) -> Seq<char> {
    text::joined(
        match runtime {
            Some(dir) => dir,
            None => temp,
        },
        "pipemeeter"@,
    )
}

/// Where the lock lives: under the runtime directory when there is one,
/// falling back to the temporary directory. Either way it is per-user, which
/// is the scope that matters.
pub fn lock_path(runtime: Option<&str>, temp: &str) -> (path: String)
    ensures
        path@ == text::joined(
            lock_dir(
                match runtime {
                    Some(r) => Some(r@),
                    None => None,
                },
                temp@,
            ),
            "instance.lock"@,
        ),
{
    let dir = match runtime {
        Some(dir) => dir,
        None => temp,
    };
    text::join(text::join(dir, "pipemeeter").as_str(), "instance.lock")
}

/// What came of trying to take the lock.
#[derive(Debug, Clone, Copy, PartialEq, Eq, Structural)]
pub enum Attempt {
    Taken,
    HeldByAnother,
    Failed,
}

/// Whether the mixer is claimed: `Some(true)` where it is ours, `Some(false)`
/// where another copy already holds it, and nothing where the claim could
/// not be attempted at all. The caller should then carry on rather than
/// refuse to start over a lock file.
pub fn claimed(attempt: Attempt) -> (r: Option<bool>)
    ensures
        r == (match attempt {
            Attempt::Taken => Some(true),
            Attempt::HeldByAnother => Some(false),
            Attempt::Failed => None,
        }),
{
    match attempt {
        Attempt::Taken => Some(true),
        Attempt::HeldByAnother => Some(false),
        Attempt::Failed => None,
    }
}

/// The lock is a file of that name in a directory of our own, wherever the
/// runtime directory is.
pub proof fn the_lock_lives_under_a_directory_of_our_own(
    runtime: Option<Seq<char>>,
    temp: Seq<char>,
)
    ensures
        text::ends(
            text::joined(lock_dir(runtime, temp), "instance.lock"@),
            "pipemeeter/instance.lock"@,
        ),
{
    reveal_strlit("pipemeeter");
    reveal_strlit("instance.lock");
    reveal_strlit("pipemeeter/instance.lock");
    let dir = lock_dir(runtime, temp);
    let path = text::joined(dir, "instance.lock"@);
    let tail = "pipemeeter/instance.lock"@;
    assert(dir.last() == 'r');
    assert(path =~= dir + seq!['/'] + "instance.lock"@);
    assert(path.subrange(path.len() - tail.len(), path.len() as int) =~= tail);
}

/// The lock is under the runtime directory where there is one, whatever the
/// temporary one is, and under the temporary one where there is none.
pub proof fn the_runtime_directory_comes_first(dir: Seq<char>, temp: Seq<char>)
    ensures
        lock_dir(Some(dir), temp) == text::joined(dir, "pipemeeter"@),
        lock_dir(None, temp) == text::joined(temp, "pipemeeter"@),
{
}

/// Only a lock that was taken is ours, and one that another holds is no
/// failure.
pub proof fn only_what_was_taken_is_ours(attempt: Attempt, r: Option<bool>)
    requires
        call_ensures(claimed, (attempt,), r),
    ensures
        r == Some(true) <==> attempt is Taken,
        r == Some(false) <==> attempt is HeldByAnother,
        r is None <==> attempt is Failed,
{
}

} // verus!
