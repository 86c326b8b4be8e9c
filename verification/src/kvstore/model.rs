//! The engine as mathematics: the log as a sequence of placed records, and
//! what the index and the stored values are after such a log.

use crate::kvstore::index::{CommandIndex, IndexView};
use vstd::prelude::*;

verus! {

/// What a record says, with its strings as sequences of characters.
pub enum Op {
    /// `key` is bound to `value`.
    Put { key: Seq<char>, value: Seq<char> },
    /// `key` is bound to nothing: a tombstone.
    Remove { key: Seq<char> },
}

impl Op {
    /// The key that the record speaks of.
    pub open spec fn key(self) -> Seq<char> {
        match self {
            Op::Put { key, .. } => key,
            Op::Remove { key } => key,
        }
    }
}

/// A record together with its place on disk.
pub struct Placed {
    /// Where the record lies.
    pub at: CommandIndex,
    /// What the record says.
    pub op: Op,
}

/// The keys and values of a store, as mathematics.
pub type Contents = Map<Seq<char>, Seq<char>>;

/// The index after one more record: a `Put` points its key at the record, a
/// `Remove` evicts its key.
pub open spec fn index_step(index: IndexView, r: Placed) -> IndexView {
    match r.op {
        Op::Put { key, .. } => index.insert(key, r.at),
        Op::Remove { key } => index.remove(key),
    }
}

/// The contents after one more record.
pub open spec fn contents_step(contents: Contents, op: Op) -> Contents {
    match op {
        Op::Put { key, value } => contents.insert(key, value),
        Op::Remove { key } => contents.remove(key),
    }
}

/// The index that replaying `log` from the index `start` gives.
pub open spec fn index_from(start: IndexView, log: Seq<Placed>) -> IndexView
    decreases log.len(),
{
    if log.len() == 0 {
        start
    } else {
        index_step(index_from(start, log.drop_last()), log.last())
    }
}

/// The contents that replaying `log` from the contents `start` gives.
pub open spec fn contents_from(start: Contents, log: Seq<Placed>) -> Contents
    decreases log.len(),
{
    if log.len() == 0 {
        start
    } else {
        contents_step(contents_from(start, log.drop_last()), log.last().op)
    }
}

/// The index that replaying `log` from an empty index gives.
pub open spec fn index_after(log: Seq<Placed>) -> IndexView {
    index_from(Map::empty(), log)
}

/// The contents that replaying `log` from an empty store gives.
pub open spec fn contents_after(log: Seq<Placed>) -> Contents {
    contents_from(Map::empty(), log)
}

/// Replaying two logs one after the other is replaying their concatenation.
pub proof fn lemma_replay_concat(index: IndexView, contents: Contents, a: Seq<Placed>, b: Seq<Placed>)
    ensures
        index_from(index, a + b) == index_from(index_from(index, a), b),
        contents_from(contents, a + b) == contents_from(contents_from(contents, a), b),
    decreases b.len(),
{
    if b.len() == 0 {
        assert(a + b =~= a);
    } else {
        lemma_replay_concat(index, contents, a, b.drop_last());
        assert((a + b).drop_last() =~= a + b.drop_last());
        assert((a + b).last() == b.last());
    }
}

/// Whether record `i` of `log` is the last one that speaks of `key`.
pub open spec fn is_last_for(log: Seq<Placed>, i: int, key: Seq<char>) -> bool {
    &&& 0 <= i < log.len()
    &&& log[i].op.key() == key
    &&& forall|j: int| i < j < log.len() ==> (#[trigger] log[j]).op.key() != key
}

/// Whether no record of `log` speaks of `key`.
pub open spec fn never_mentions(log: Seq<Placed>, key: Seq<char>) -> bool {
    forall|j: int| 0 <= j < log.len() ==> (#[trigger] log[j]).op.key() != key
}

/// Last write wins: a key is in the index exactly where the last record that
/// speaks of it is a `Put`, the index then points at that record, and the
/// contents hold that record's value.
pub proof fn lemma_last_write_wins(log: Seq<Placed>, key: Seq<char>)
    ensures
        never_mentions(log, key) ==> !index_after(log).dom().contains(key) && !contents_after(
            log,
        ).dom().contains(key),
        forall|i: int| #[trigger]
            is_last_for(log, i, key) ==> match log[i].op {
                Op::Put { value, .. } => {
                    &&& index_after(log).dom().contains(key)
                    &&& index_after(log)[key] == log[i].at
                    &&& contents_after(log).dom().contains(key)
                    &&& contents_after(log)[key] == value
                },
                Op::Remove { .. } => {
                    &&& !index_after(log).dom().contains(key)
                    &&& !contents_after(log).dom().contains(key)
                },
            },
    decreases log.len(),
{
    if log.len() > 0 {
        let front = log.drop_last();
        lemma_last_write_wins(front, key);
        if log.last().op.key() == key {
            assert(is_last_for(log, log.len() - 1, key));
            assert forall|i: int| #[trigger] is_last_for(log, i, key) implies i == log.len() - 1 by {
                if i < log.len() - 1 {
                    assert(log[log.len() - 1].op.key() != key);
                }
            }
        } else {
            if never_mentions(log, key) {
                assert forall|j: int| 0 <= j < front.len() implies (#[trigger] front[j]).op.key()
                    != key by {
                    assert(front[j] == log[j]);
                }
            }
            assert forall|i: int| #[trigger] is_last_for(log, i, key) implies is_last_for(
                front,
                i,
                key,
            ) by {
                assert forall|j: int| i < j < front.len() implies (#[trigger] front[j]).op.key()
                    != key by {
                    assert(front[j] == log[j]);
                }
            }
        }
    }
}

/// The index and the contents always hold the same keys.
pub proof fn lemma_same_keys(log: Seq<Placed>)
    ensures
        index_after(log).dom() == contents_after(log).dom(),
    decreases log.len(),
{
    if log.len() > 0 {
        lemma_same_keys(log.drop_last());
        assert(index_after(log).dom() =~= contents_after(log).dom());
    } else {
        assert(index_after(log).dom() =~= contents_after(log).dom());
    }
}

} // verus!
