//! The replay of recorded workers.
//!
//! A replay starts one worker for each record under `./threads/`, with the
//! seed and the number of sessions that the record holds. In sequence, it
//! stops at the first worker after which the broker is dead: that worker's
//! record holds the seed that brings the broker down.

use vstd::prelude::*;
use vstd::string::*;

verus! {

/// `text` begins with `prefix`.
pub open spec fn begins_with(text: Seq<char>, prefix: Seq<char>) -> bool {
    prefix.len() <= text.len() && text.subrange(0, prefix.len() as int) == prefix
}

/// `text` ends with `suffix`.
pub open spec fn ends_with(text: Seq<char>, suffix: Seq<char>) -> bool {
    suffix.len() <= text.len() && text.subrange(text.len() - suffix.len(), text.len() as int)
        == suffix
}

/// `path` names the record of a worker.
pub open spec fn names_record(path: Seq<char>) -> bool {
    begins_with(path, "./threads/fuzzing_"@) && ends_with(path, ".txt"@)
}

/// Whether the characters of `text` from `at` on begin with `part`.
fn matches_at(text: &str, at: usize, part: &str) -> (r: bool)
    requires
        at <= text@.len(),
    ensures
        r == (at + part@.len() <= text@.len() && text@.subrange(at as int, at + part@.len())
            == part@),
{
    let text_len = text.unicode_len();
    let part_len = part.unicode_len();
    if part_len > text_len - at {
        return false;
    }
    let mut i: usize = 0;
    while i < part_len
        invariant
            i <= part_len,
            part_len == part@.len(),
            text_len == text@.len(),
            at + part_len <= text_len,
            forall|j: int| 0 <= j < i ==> text@[at + j] == part@[j],
        decreases part_len - i,
    {
        if text.get_char(at + i) != part.get_char(i) {
            assert(text@.subrange(at as int, at + part_len)[i as int] != part@[i as int]);
            return false;
        }
        i += 1;
    }
    assert(text@.subrange(at as int, at + part_len) =~= part@);
    true
}

/// Whether `path` names the record of a worker: it begins with
/// `./threads/fuzzing_` and ends with `.txt`.
pub fn is_thread_file(path: &str) -> (r: bool)
    ensures
        r == names_record(path@),
{
    let len = path.unicode_len();
    let suffix_len = ".txt".unicode_len();
    if !matches_at(path, 0, "./threads/fuzzing_") {
        return false;
    }
    if suffix_len > len {
        return false;
    }
    matches_at(path, len - suffix_len, ".txt")
}

/// What a replay in sequence does after a worker has ended.
#[derive(Debug, Clone, Copy, PartialEq, Eq, Structural)]
pub enum ReplayStep {
    /// The broker is dead: the worker with this index holds the seed that
    /// brings it down. The replay stops.
    CrashFound(usize),
    /// Go on with the worker with this index.
    Next(usize),
    /// Every worker has run and the broker lives.
    NoCrash,
}

/// What follows the worker `index` of `total` in a replay in sequence.
pub open spec fn replay_step(index: usize, total: usize, broker_died: bool) -> ReplayStep {
    if broker_died {
        ReplayStep::CrashFound(index)
    } else if index + 1 < total {
        ReplayStep::Next((index + 1) as usize)
    } else {
        ReplayStep::NoCrash
    }
}

/// Decides what a replay in sequence does after the worker `index` of
/// `total` has ended.
pub fn after_worker(index: usize, total: usize, broker_died: bool) -> (r: ReplayStep)
    ensures
        r == replay_step(index, total, broker_died),
{
    if broker_died {
        ReplayStep::CrashFound(index)
    } else if index < total && index + 1 < total {
        ReplayStep::Next(index + 1)
    } else {
        ReplayStep::NoCrash
    }
}

} // verus!
