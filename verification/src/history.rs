//! The transcription history: newest entry first, bounded in length.
use vstd::prelude::*;

verus! {

/// The most entries the history keeps.
pub const MAX_HISTORY: usize = 200;

/// The history after recording `entry`: it comes first, the older entries
/// follow in order, and the oldest beyond `MAX_HISTORY` are dropped.
pub open spec fn with_entry<T>(history: Seq<T>, entry: T) -> Seq<T> {
    let all = seq![entry] + history;
    if all.len() > MAX_HISTORY {
        all.take(MAX_HISTORY as int)
    } else {
        all
    }
}

/// Puts `entry` at the front of `history` and drops what no longer fits.
pub fn record_entry<T>(history: &mut Vec<T>, entry: T)
    ensures
        final(history)@ == with_entry(old(history)@, entry),
{
    history.insert(0, entry);
    history.truncate(MAX_HISTORY);
    assert(final(history)@ =~= with_entry(old(history)@, entry));
}

/// Recording an entry makes it the newest, keeps every earlier entry that
/// still fits in the same order behind it, and never lets the history grow
/// past `MAX_HISTORY`.
pub proof fn lemma_record_keeps_order<T>(history: Seq<T>, entry: T)
    ensures
        with_entry(history, entry)[0] == entry,
        with_entry(history, entry).len() == if history.len() + 1 > MAX_HISTORY {
            MAX_HISTORY as int
        } else {
            history.len() + 1int
        },
        forall|i: int|
            0 <= i < with_entry(history, entry).len() - 1 ==> #[trigger] with_entry(
                history,
                entry,
            )[i + 1] == history[i],
{
}

} // verus!
