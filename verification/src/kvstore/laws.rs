//! What holds of the engine: a store that follows its log answers every
//! lookup with the value that was set last, across rollover, reopening and
//! compaction.

use crate::kvstore::index::CommandIndex;
use crate::kvstore::model::{
    contents_after, index_after, is_last_for, lemma_last_write_wins, lemma_same_keys,
    never_mentions, Op, Placed,
};
use crate::kvstore::{StoreView, CMDS_THRESHOLD};
use vstd::prelude::*;

verus! {

/// Whether two places start at the same offset of the same log file.
pub open spec fn same_place(a: CommandIndex, b: CommandIndex) -> bool {
    a.log_id == b.log_id && a.offset == b.offset
}

/// Whether no two records of `log` start at the same place.
pub open spec fn distinct_places(log: Seq<Placed>) -> bool {
    forall|i: int, j: int|
        0 <= i < j < log.len() ==> !same_place((#[trigger] log[i]).at, (#[trigger] log[j]).at)
}

/// Whether the record `r` is not empty and lies wholly behind the place at
/// which the writer of `s` stands: in an older log file, or in the current
/// one before the writer's offset.
pub open spec fn behind_writer(s: StoreView, r: Placed) -> bool {
    &&& r.at.len > 0
    &&& r.at.log_id < s.log_id || (r.at.log_id == s.log_id && r.at.offset + r.at.len
        <= s.offset)
}

/// Whether the records of `log` lie file by file, older files first.
pub open spec fn file_by_file(log: Seq<Placed>) -> bool {
    forall|i: int, j: int|
        0 <= i < j < log.len() ==> (#[trigger] log[i]).at.log_id <= (#[trigger] log[j]).at.log_id
}

/// Whether the record `r` lies in a log file that the store `s` knows: the
/// current file or a sealed file that was not retired.
pub open spec fn in_known_file(s: StoreView, r: Placed) -> bool {
    r.at.log_id == s.log_id || s.sealed.contains(r.at.log_id)
}

/// Whether the store `s` follows the log `log`: its index is what replaying
/// the log gives; no two records share a place; the records lie file by
/// file, in files that the store knows; and every record lies behind the
/// writer.
pub open spec fn tracks(s: StoreView, log: Seq<Placed>) -> bool {
    &&& s.index == index_after(log)
    &&& distinct_places(log)
    &&& file_by_file(log)
    &&& forall|i: int| 0 <= i < log.len() ==> behind_writer(s, #[trigger] log[i])
    &&& forall|i: int| 0 <= i < log.len() ==> in_known_file(s, #[trigger] log[i])
}

/// What is read at the place `at`: the command of the record of `log` that
/// starts there, if there is one.
pub open spec fn record_at(log: Seq<Placed>, at: CommandIndex) -> Option<Op>
    decreases log.len(),
{
    if log.len() == 0 {
        None
    } else if same_place(log.last().at, at) {
        Some(log.last().op)
    } else {
        record_at(log.drop_last(), at)
    }
}

/// What a lookup of `key` gives in a store that follows `log`: the value of
/// the `Put` that is read at the place to which the index points, and
/// nothing where the index does not hold the key.
pub open spec fn lookup(s: StoreView, log: Seq<Placed>, key: Seq<char>) -> Option<Seq<char>> {
    if s.index.dom().contains(key) {
        match record_at(log, s.index[key]) {
            Some(Op::Put { value, .. }) => Some(value),
            _ => None,
        }
    } else {
        None
    }
}

/// In a log without shared places, what is read at the place of a record is
/// that record.
pub proof fn lemma_record_at(log: Seq<Placed>, i: int)
    requires
        distinct_places(log),
        0 <= i < log.len(),
    ensures
        record_at(log, log[i].at) == Some(log[i].op),
    decreases log.len(),
{
    if i < log.len() - 1 {
        let front = log.drop_last();
        assert(front[i] == log[i]);
        assert(!same_place(log[i].at, log[log.len() - 1].at));
        assert forall|a: int, b: int| 0 <= a < b < front.len() implies !same_place(
            (#[trigger] front[a]).at,
            (#[trigger] front[b]).at,
        ) by {
            assert(front[a] == log[a] && front[b] == log[b]);
        }
        lemma_record_at(front, i);
    }
}

/// The record that speaks last of `key` in `log`, if one does.
pub open spec fn last_index_of(log: Seq<Placed>, key: Seq<char>) -> Option<int>
    decreases log.len(),
{
    if log.len() == 0 {
        None
    } else if log.last().op.key() == key {
        Some(log.len() - 1)
    } else {
        last_index_of(log.drop_last(), key)
    }
}

/// `last_index_of` gives the last record that speaks of the key, and none
/// exactly where none does.
pub proof fn lemma_last_index_of(log: Seq<Placed>, key: Seq<char>)
    ensures
        match last_index_of(log, key) {
            Some(i) => is_last_for(log, i, key),
            None => never_mentions(log, key),
        },
    decreases log.len(),
{
    if log.len() > 0 && log.last().op.key() != key {
        let front = log.drop_last();
        lemma_last_index_of(front, key);
        match last_index_of(front, key) {
            Some(i) => {
                assert(front[i] == log[i]);
                assert forall|j: int| i < j < log.len() implies (#[trigger] log[j]).op.key()
                    != key by {
                    if j < front.len() {
                        assert(front[j] == log[j]);
                    }
                }
            },
            None => {
                assert forall|j: int| 0 <= j < log.len() implies (#[trigger] log[j]).op.key()
                    != key by {
                    if j < front.len() {
                        assert(front[j] == log[j]);
                    }
                }
            },
        }
    }
}

/// The index points at values: in a store that follows its log, the index
/// and the contents hold the same keys, and a lookup of any key gives the
/// value that the last record for the key set, and nothing where there is no
/// such record or it is a removal.
pub proof fn law_lookup_gives_last_value(s: StoreView, log: Seq<Placed>, key: Seq<char>)
    requires
        tracks(s, log),
    ensures
        s.index.dom() == contents_after(log).dom(),
        lookup(s, log, key) == if contents_after(log).dom().contains(key) {
            Some(contents_after(log)[key])
        } else {
            None
        },
        match last_index_of(log, key) {
            Some(i) => lookup(s, log, key) == match log[i].op {
                Op::Put { value, .. } => Some(value),
                Op::Remove { .. } => None,
            },
            None => lookup(s, log, key) is None,
        },
{
    lemma_same_keys(log);
    lemma_last_write_wins(log, key);
    lemma_last_index_of(log, key);
    match last_index_of(log, key) {
        Some(i) => {
            assert(is_last_for(log, i, key));
            lemma_record_at(log, i);
        },
        None => {},
    }
}

/// A set is seen by the next lookup: after a `Put` of `key` and `value` was
/// appended and recorded, the store still follows its log, and a lookup of
/// `key` gives `value`.
pub proof fn law_set_then_get(
    s: StoreView,
    log: Seq<Placed>,
    key: Seq<char>,
    value: Seq<char>,
    len: u64,
)
    requires
        tracks(s, log),
        s.can_append(len),
    ensures
        ({
            let r = Placed { at: s.next_place(len), op: Op::Put { key, value } };
            &&& tracks(s.put(key, len), log.push(r))
            &&& lookup(s.put(key, len), log.push(r), key) == Some(value)
        }),
{
    let r = Placed { at: s.next_place(len), op: Op::Put { key, value } };
    let s2 = s.put(key, len);
    let log2 = log.push(r);
    assert(log2.drop_last() =~= log);
    assert forall|i: int, j: int| 0 <= i < j < log2.len() implies !same_place(
        (#[trigger] log2[i]).at,
        (#[trigger] log2[j]).at,
    ) by {
        assert(log2[i] == log[i]);
        assert(behind_writer(s, log[i]));
        if j < log.len() {
            assert(log2[j] == log[j]);
        }
    }
    assert forall|i: int| 0 <= i < log2.len() implies behind_writer(s2, #[trigger] log2[i])
        && in_known_file(s2, log2[i]) by {
        if i < log.len() {
            assert(log2[i] == log[i]);
            assert(behind_writer(s, log[i]));
            assert(in_known_file(s, log[i]));
        }
    }
    assert forall|i: int, j: int| 0 <= i < j < log2.len() implies (#[trigger] log2[i]).at.log_id
        <= (#[trigger] log2[j]).at.log_id by {
        assert(log2[i] == log[i]);
        assert(behind_writer(s, log[i]));
        if j < log.len() {
            assert(log2[j] == log[j]);
        }
    }
    lemma_record_at(log2, log2.len() - 1);
}

/// The later of two sets wins: after two `Put`s of `key`, a lookup gives the
/// value of the second.
pub proof fn law_second_set_wins(
    s: StoreView,
    log: Seq<Placed>,
    key: Seq<char>,
    first: Seq<char>,
    first_len: u64,
    second: Seq<char>,
    second_len: u64,
)
    requires
        tracks(s, log),
        s.can_append(first_len),
        s.put(key, first_len).can_append(second_len),
    ensures
        ({
            let r1 = Placed { at: s.next_place(first_len), op: Op::Put { key, value: first } };
            let s1 = s.put(key, first_len);
            let r2 = Placed { at: s1.next_place(second_len), op: Op::Put { key, value: second } };
            &&& tracks(s1.put(key, second_len), log.push(r1).push(r2))
            &&& lookup(s1.put(key, second_len), log.push(r1).push(r2), key) == Some(second)
        }),
{
    let r1 = Placed { at: s.next_place(first_len), op: Op::Put { key, value: first } };
    law_set_then_get(s, log, key, first, first_len);
    law_set_then_get(s.put(key, first_len), log.push(r1), key, second, second_len);
}

/// A removal is seen by the next lookup and by the next removal: after a
/// `Remove` of a live `key` was appended and recorded, the store still
/// follows its log, a lookup of `key` gives nothing, and the index no longer
/// holds `key`, so that a second removal finds no key to remove.
pub proof fn law_remove_then_get(s: StoreView, log: Seq<Placed>, key: Seq<char>, len: u64)
    requires
        tracks(s, log),
        s.can_append(len),
    ensures
        ({
            let r = Placed { at: s.next_place(len), op: Op::Remove { key } };
            &&& tracks(s.removed(key, len), log.push(r))
            &&& lookup(s.removed(key, len), log.push(r), key) is None
            &&& !s.removed(key, len).index.dom().contains(key)
        }),
{
    let r = Placed { at: s.next_place(len), op: Op::Remove { key } };
    let s2 = s.removed(key, len);
    let log2 = log.push(r);
    assert(log2.drop_last() =~= log);
    assert forall|i: int, j: int| 0 <= i < j < log2.len() implies !same_place(
        (#[trigger] log2[i]).at,
        (#[trigger] log2[j]).at,
    ) by {
        assert(log2[i] == log[i]);
        assert(behind_writer(s, log[i]));
        if j < log.len() {
            assert(log2[j] == log[j]);
        }
    }
    assert forall|i: int| 0 <= i < log2.len() implies behind_writer(s2, #[trigger] log2[i])
        && in_known_file(s2, log2[i]) by {
        if i < log.len() {
            assert(log2[i] == log[i]);
            assert(behind_writer(s, log[i]));
            assert(in_known_file(s, log[i]));
        }
    }
    assert forall|i: int, j: int| 0 <= i < j < log2.len() implies (#[trigger] log2[i]).at.log_id
        <= (#[trigger] log2[j]).at.log_id by {
        assert(log2[i] == log[i]);
        assert(behind_writer(s, log[i]));
        if j < log.len() {
            assert(log2[j] == log[j]);
        }
    }
}

/// Rollover seals the current log file: the id of the current file goes up
/// by one, the store still follows its log, and whatever is appended from
/// then on goes to the new file, so that no older file grows.
pub proof fn law_rollover_seals(s: StoreView, log: Seq<Placed>, len: u64)
    requires
        tracks(s, log),
        s.log_id < u64::MAX,
    ensures
        s.rolled().log_id == s.log_id + 1,
        s.rolled().index == s.index,
        tracks(s.rolled(), log),
        s.rolled().next_place(len).log_id > s.log_id,
        forall|i: int| 0 <= i < log.len() ==> (#[trigger] log[i]).at.log_id < s.rolled().log_id,
{
    assert forall|i: int| 0 <= i < log.len() implies behind_writer(s.rolled(), #[trigger] log[i])
        && in_known_file(s.rolled(), log[i]) && log[i].at.log_id < s.rolled().log_id by {
        assert(behind_writer(s, log[i]));
        assert(in_known_file(s, log[i]));
        let sealed = s.rolled().sealed;
        if log[i].at.log_id == s.log_id {
            assert(sealed[sealed.len() - 1] == s.log_id);
        } else {
            let k = choose|k: int| 0 <= k < s.sealed.len() && s.sealed[k] == log[i].at.log_id;
            assert(sealed[k] == log[i].at.log_id);
        }
    }
}

/// The sealed files lie between the watermark and the writer: in a well
/// formed store a file that compaction has yet to treat is older than the
/// current file and younger than the file that was retired last, and the
/// oldest of them is the one that `retire_log` lets go.
pub proof fn law_candidates_lie_between(s: StoreView, id: u64)
    requires
        s.wf(),
        s.is_candidate(id),
    ensures
        id < s.log_id,
        s.last_collected matches Some(w) ==> w < id,
        s.oldest_sealed() matches Some(oldest) && oldest <= id,
{
    let k = choose|k: int| 0 <= k < s.sealed.len() && s.sealed[k] == id;
    if k > 0 {
        assert(s.sealed[0] < s.sealed[k]);
    }
}

/// The oldest sealed file heads the log: in a well formed store that follows
/// its log, every record of the oldest sealed file lies before every record
/// of any other file. So the file that `retire_log` lets go is the one whose
/// records begin the log.
pub proof fn law_oldest_sealed_file_heads_the_log(s: StoreView, log: Seq<Placed>, i: int, j: int)
    requires
        s.wf(),
        tracks(s, log),
        0 <= i < log.len(),
        0 <= j < log.len(),
        s.oldest_sealed() == Some(log[i].at.log_id),
        log[j].at.log_id != log[i].at.log_id,
    ensures
        i < j,
        log[i].at.log_id < log[j].at.log_id,
{
    assert(in_known_file(s, log[j]));
    if log[j].at.log_id != s.log_id {
        let k = choose|k: int| 0 <= k < s.sealed.len() && s.sealed[k] == log[j].at.log_id;
        assert(0 < k);
    }
}

/// The state after commands of the lengths `lens` were appended one after
/// the other, the index aside.
pub open spec fn after_appends(s: StoreView, lens: Seq<u64>) -> StoreView
    decreases lens.len(),
{
    if lens.len() == 0 {
        s
    } else {
        after_appends(s, lens.drop_last()).appended(lens.last())
    }
}

/// Whether commands of the lengths `lens` can be appended one after the
/// other.
pub open spec fn can_append_all(s: StoreView, lens: Seq<u64>) -> bool
    decreases lens.len(),
{
    lens.len() == 0 || (can_append_all(s, lens.drop_last()) && after_appends(
        s,
        lens.drop_last(),
    ).can_append(lens.last()))
}

/// Enough writes make a rollover due: every command that is recorded,
/// `Put` or `Remove`, counts in the current log file; and once more
/// commands than half the command threshold were appended to it, or bytes
/// beyond the size threshold, a new file is due.
pub proof fn law_enough_writes_make_rollover_due(s: StoreView, lens: Seq<u64>, key: Seq<char>)
    requires
        can_append_all(s, lens),
    ensures
        after_appends(s, lens).log_id == s.log_id,
        after_appends(s, lens).cmd_counter == s.cmd_counter + lens.len(),
        after_appends(s, lens).offset >= s.offset + lens.len(),
        lens.len() > CMDS_THRESHOLD / 2 ==> after_appends(s, lens).rollover_due(),
        lens.len() > 0 ==> {
            &&& after_appends(s, lens.drop_last()).put(key, lens.last()).cmd_counter
                == after_appends(s, lens).cmd_counter
            &&& after_appends(s, lens.drop_last()).removed(key, lens.last()).cmd_counter
                == after_appends(s, lens).cmd_counter
        },
    decreases lens.len(),
{
    if lens.len() > 0 {
        law_enough_writes_make_rollover_due(s, lens.drop_last(), key);
    }
}

/// Every step keeps a store well formed: recording a `Put` or a `Remove`
/// that can be appended, turning to a new log file while there is a further
/// id, and retiring the oldest sealed file where it holds no more commands
/// than the sealed files hold in all.
pub proof fn law_steps_keep_well_formed(
    s: StoreView,
    key: Seq<char>,
    len: u64,
    id: u64,
    cmd_count: u64,
)
    requires
        s.wf(),
    ensures
        s.can_append(len) ==> s.put(key, len).wf() && s.removed(key, len).wf(),
        s.log_id < u64::MAX ==> s.rolled().wf(),
        s.oldest_sealed() == Some(id) && cmd_count <= s.total_cmd_counter - s.cmd_counter
            ==> s.retired(id, cmd_count).wf(),
{
    if s.oldest_sealed() == Some(id) {
        let rest = s.sealed.drop_first();
        assert forall|i: int| 0 <= i < rest.len() implies rest[i] == s.sealed[i + 1] by {}
    }
}

} // verus!
