//! What holds of compaction: writing the live records of the oldest log file
//! again and dropping the file keeps every value and never takes more room.

use crate::kvstore::compaction::{is_live, lists, live_positions, referenced};
use crate::kvstore::laws::{
    behind_writer, in_known_file, last_index_of, lemma_last_index_of, same_place, tracks,
};
use crate::kvstore::model::{
    contents_after, index_after, is_last_for, lemma_last_write_wins, never_mentions, Op, Placed,
};
use crate::kvstore::reopen::lemma_placed_shape;
use crate::kvstore::scan::{placed, placed_at, records_fit, LogFile};
use crate::kvstore::StoreView;
use std::collections::HashSet;
use vstd::prelude::*;

verus! {

/// The number of bytes that the records of `log` take.
pub open spec fn bytes_of(log: Seq<Placed>) -> int
    decreases log.len(),
{
    if log.len() == 0 {
        0
    } else {
        bytes_of(log.drop_last()) + log.last().at.len
    }
}

/// The bytes of two logs add up.
pub proof fn lemma_bytes_concat(a: Seq<Placed>, b: Seq<Placed>)
    ensures
        bytes_of(a + b) == bytes_of(a) + bytes_of(b),
        bytes_of(a) >= 0,
    decreases b.len(),
{
    if b.len() == 0 {
        assert(a + b =~= a);
        lemma_bytes_nonnegative(a);
    } else {
        lemma_bytes_concat(a, b.drop_last());
        assert((a + b).drop_last() =~= a + b.drop_last());
        assert((a + b).last() == b.last());
    }
}

/// A log takes no less than nothing.
pub proof fn lemma_bytes_nonnegative(a: Seq<Placed>)
    ensures
        bytes_of(a) >= 0,
    decreases a.len(),
{
    if a.len() > 0 {
        lemma_bytes_nonnegative(a.drop_last());
    }
}

/// The record that speaks last of a key in two logs, one after the other, is
/// the one in the second log where there is one, and else the one in the
/// first.
pub proof fn lemma_last_index_concat(a: Seq<Placed>, b: Seq<Placed>, key: Seq<char>)
    ensures
        last_index_of(a + b, key) == match last_index_of(b, key) {
            Some(j) => Some(a.len() + j),
            None => last_index_of(a, key),
        },
    decreases b.len(),
{
    if b.len() == 0 {
        assert(a + b =~= a);
    } else {
        assert((a + b).drop_last() =~= a + b.drop_last());
        assert((a + b).last() == b.last());
        lemma_last_index_concat(a, b.drop_last(), key);
    }
}

/// What the index and the contents hold for a key is decided by the record
/// that speaks last of the key.
pub proof fn lemma_decided_by_last(log: Seq<Placed>, key: Seq<char>)
    ensures
        match last_index_of(log, key) {
            Some(i) => 0 <= i < log.len() && log[i].op.key() == key && match log[i].op {
                Op::Put { value, .. } => {
                    &&& index_after(log).dom().contains(key)
                    &&& index_after(log)[key] == log[i].at
                    &&& contents_after(log).dom().contains(key)
                    &&& contents_after(log)[key] == value
                },
                Op::Remove { .. } => {
                    &&& !index_after(log).dom().contains(key)
                    &&& !contents_after(log).dom().contains(key)
                },
            },
            None => {
                &&& !index_after(log).dom().contains(key)
                &&& !contents_after(log).dom().contains(key)
            },
        },
{
    lemma_last_index_of(log, key);
    lemma_last_write_wins(log, key);
    match last_index_of(log, key) {
        Some(i) => {
            assert(is_last_for(log, i, key));
        },
        None => {},
    }
}

/// Whether every key of which a record of `old` speaks last in `old + tail`
/// was removed by that record.
pub open spec fn prefix_holds_only_tombstones(old: Seq<Placed>, tail: Seq<Placed>) -> bool {
    forall|key: Seq<char>|
        match #[trigger] last_index_of(old + tail, key) {
            Some(i) => i >= old.len() || (0 <= i < old.len() && old[i].op is Remove),
            None => true,
        }
}

/// Where a prefix holds only tombstones, replaying the rest alone decides
/// the same for each key.
proof fn lemma_drop_sealed_prefix_for(old: Seq<Placed>, tail: Seq<Placed>, key: Seq<char>)
    requires
        prefix_holds_only_tombstones(old, tail),
    ensures
        index_after(old + tail).dom().contains(key) == index_after(tail).dom().contains(key),
        index_after(tail).dom().contains(key) ==> index_after(old + tail)[key] == index_after(
            tail,
        )[key],
        contents_after(old + tail).dom().contains(key) == contents_after(tail).dom().contains(
            key,
        ),
        contents_after(tail).dom().contains(key) ==> contents_after(old + tail)[key]
            == contents_after(tail)[key],
{
    let whole = old + tail;
    lemma_last_index_concat(old, tail, key);
    lemma_decided_by_last(whole, key);
    lemma_decided_by_last(tail, key);
    lemma_last_index_of(tail, key);
    lemma_last_index_of(old, key);
    match last_index_of(tail, key) {
        Some(j) => {
            assert(last_index_of(whole, key) == Some(old.len() + j));
            assert(whole[old.len() + j] == tail[j]);
        },
        None => {
            assert(last_index_of(whole, key) == last_index_of(old, key));
            match last_index_of(old, key) {
                Some(i) => {
                    assert(0 <= i < old.len());
                    assert(whole[i] == old[i]);
                    assert(old[i].op is Remove);
                },
                None => {},
            }
        },
    }
}

/// A sealed prefix can be dropped: where every key of which a record of
/// `old` speaks last in `old + tail` was removed by that record, replaying
/// `tail` alone gives the same index and the same contents.
pub proof fn lemma_drop_sealed_prefix(old: Seq<Placed>, tail: Seq<Placed>)
    requires
        prefix_holds_only_tombstones(old, tail),
    ensures
        index_after(old + tail) == index_after(tail),
        contents_after(old + tail) == contents_after(tail),
{
    let whole = old + tail;
    assert forall|key: Seq<char>| #[trigger]
        index_after(whole).dom().contains(key) == index_after(tail).dom().contains(key) by {
        lemma_drop_sealed_prefix_for(old, tail, key);
    }
    assert forall|key: Seq<char>| index_after(tail).dom().contains(key) implies #[trigger] index_after(
        whole,
    )[key] == index_after(tail)[key] by {
        lemma_drop_sealed_prefix_for(old, tail, key);
    }
    assert forall|key: Seq<char>| #[trigger]
        contents_after(whole).dom().contains(key) == contents_after(tail).dom().contains(key) by {
        lemma_drop_sealed_prefix_for(old, tail, key);
    }
    assert forall|key: Seq<char>|
        contents_after(tail).dom().contains(key) implies #[trigger] contents_after(whole)[key]
        == contents_after(tail)[key] by {
        lemma_drop_sealed_prefix_for(old, tail, key);
    }
    assert(index_after(whole).dom() =~= index_after(tail).dom());
    assert(contents_after(whole).dom() =~= contents_after(tail).dom());
    assert(index_after(whole) =~= index_after(tail));
    assert(contents_after(whole) =~= contents_after(tail));
}

/// Setting a key again to the value that it has changes no contents.
pub proof fn lemma_reput_keeps_contents(log: Seq<Placed>, r: Placed)
    requires
        r.op matches Op::Put { key, value } && contents_after(log).dom().contains(key)
            && contents_after(log)[key] == value,
    ensures
        contents_after(log.push(r)) == contents_after(log),
{
    assert(log.push(r).drop_last() =~= log);
    assert(contents_after(log.push(r)) =~= contents_after(log));
}

/// The positions that `live_positions` gives go strictly up, lie among the
/// first `n`, and are exactly those of the records that are to be written
/// again.
pub proof fn lemma_live_positions(active: Map<u64, HashSet<u64>>, file: LogFile, n: int)
    requires
        0 <= n <= file.records@.len() <= usize::MAX,
    ensures
        live_positions(active, file, n).len() <= n,
        forall|j: int|
            0 <= j < live_positions(active, file, n).len() ==> 0 <= (#[trigger] live_positions(
                active,
                file,
                n,
            )[j]) < n && is_live(active, file, live_positions(active, file, n)[j] as int),
        forall|j: int, k: int|
            0 <= j < k < live_positions(active, file, n).len() ==> (#[trigger] live_positions(
                active,
                file,
                n,
            )[j]) < (#[trigger] live_positions(active, file, n)[k]),
        forall|i: int|
            0 <= i < n && is_live(active, file, i) ==> exists|j: int|
                0 <= j < live_positions(active, file, n).len() && #[trigger] live_positions(
                    active,
                    file,
                    n,
                )[j] == i,
    decreases n,
{
    if n > 0 {
        lemma_live_positions(active, file, n - 1);
        let before = live_positions(active, file, n - 1);
        let now = live_positions(active, file, n);
        if is_live(active, file, n - 1) {
            assert(now == before.push((n - 1) as usize));
            assert forall|j: int| 0 <= j < now.len() implies 0 <= (#[trigger] now[j]) < n
                && is_live(active, file, now[j] as int) by {
                if j < before.len() {
                    assert(now[j] == before[j]);
                }
            }
            assert forall|j: int, k: int| 0 <= j < k < now.len() implies (#[trigger] now[j]) < (
            #[trigger] now[k]) by {
                assert(now[j] == before[j]);
                if k < before.len() {
                    assert(now[k] == before[k]);
                }
            }
            assert forall|i: int| 0 <= i < n && is_live(active, file, i) implies exists|j: int|
                0 <= j < now.len() && #[trigger] now[j] == i by {
                if i == n - 1 {
                    assert(now[now.len() - 1] == i);
                } else {
                    let j = choose|j: int| 0 <= j < before.len() && #[trigger] before[j] == i;
                    assert(now[j] == i);
                }
            }
        } else {
            assert(now == before);
        }
    }
}

/// The positions among the first `n` records are the first of the positions
/// among the first `m`, for `n` no greater than `m`.
pub proof fn lemma_live_positions_prefix(
    active: Map<u64, HashSet<u64>>,
    file: LogFile,
    n: int,
    m: int,
)
    requires
        0 <= n <= m,
    ensures
        live_positions(active, file, n).len() <= live_positions(active, file, m).len(),
        live_positions(active, file, n) == live_positions(active, file, m).take(
            live_positions(active, file, n).len() as int,
        ),
    decreases m - n,
{
    if n < m {
        lemma_live_positions_prefix(active, file, n, m - 1);
        let short = live_positions(active, file, n);
        let before = live_positions(active, file, m - 1);
        let now = live_positions(active, file, m);
        if is_live(active, file, m - 1) {
            assert(now.take(short.len() as int) =~= before.take(short.len() as int));
        }
    } else {
        let here = live_positions(active, file, n);
        assert(here.take(here.len() as int) =~= here);
    }
}

/// Whether `rewritten` are the records of `old` at `positions`, written
/// again: each with the command and the number of bytes of its record.
pub open spec fn rewrites(old: Seq<Placed>, positions: Seq<usize>, rewritten: Seq<Placed>) -> bool {
    &&& rewritten.len() == positions.len()
    &&& forall|j: int|
        0 <= j < positions.len() ==> {
            &&& 0 <= positions[j] < old.len()
            &&& (#[trigger] rewritten[j]).op == old[positions[j] as int].op
            &&& rewritten[j].at.len == old[positions[j] as int].at.len
        }
}

/// What the compaction of `file` starts from: a store that follows a log
/// which begins with the records of `file`, and offsets listed under the
/// file's id exactly where the index points into the file.
pub open spec fn compaction_ready(
    s: StoreView,
    file: LogFile,
    rest: Seq<Placed>,
    active: Map<u64, HashSet<u64>>,
) -> bool {
    &&& file.records@.len() <= usize::MAX
    &&& records_fit(file.records@)
    &&& tracks(s, placed(file.id, file.records@) + rest)
    &&& forall|offset: u64|
        lists(active, file.id, offset) <==> referenced(s.index, file.id, offset)
}

/// A record of the file is written again exactly where it is the `Put` that
/// speaks last of its key in the whole log.
pub proof fn lemma_live_is_last_put(
    s: StoreView,
    file: LogFile,
    rest: Seq<Placed>,
    active: Map<u64, HashSet<u64>>,
    i: int,
)
    requires
        compaction_ready(s, file, rest, active),
        0 <= i < file.records@.len(),
    ensures
        ({
            let old = placed(file.id, file.records@);
            is_live(active, file, i) <==> (old[i].op is Put && last_index_of(
                old + rest,
                old[i].op.key(),
            ) == Some(i))
        }),
{
    let old = placed(file.id, file.records@);
    let log = old + rest;
    let key = old[i].op.key();
    assert(old[i] == placed_at(file.id, file.records@, i));
    assert(log[i] == old[i]);
    lemma_decided_by_last(log, key);
    lemma_last_index_of(log, key);
    if is_live(active, file, i) {
        assert(lists(active, file.id, old[i].at.offset));
        assert(referenced(s.index, file.id, old[i].at.offset));
        let other = choose|k: Seq<char>| #[trigger]
            s.index.dom().contains(k) && s.index[k].log_id == file.id && s.index[k].offset
                == old[i].at.offset;
        lemma_decided_by_last(log, other);
        lemma_last_index_of(log, other);
        let m = last_index_of(log, other)->Some_0;
        assert(same_place(log[m].at, log[i].at));
        if m < i {
            assert(!same_place(log[m].at, log[i].at));
        }
        if i < m {
            assert(!same_place(log[i].at, log[m].at));
        }
        assert(m == i);
    }
    if old[i].op is Put && last_index_of(log, key) == Some(i) {
        assert(s.index.dom().contains(key) && s.index[key] == log[i].at);
        assert(referenced(s.index, file.id, old[i].at.offset));
    }
}

/// Writing live records again changes no contents.
proof fn lemma_rewrites_keep_contents(
    s: StoreView,
    file: LogFile,
    rest: Seq<Placed>,
    active: Map<u64, HashSet<u64>>,
    rewritten: Seq<Placed>,
    n: int,
)
    requires
        compaction_ready(s, file, rest, active),
        rewrites(
            placed(file.id, file.records@),
            live_positions(active, file, file.records@.len() as int),
            rewritten,
        ),
        0 <= n <= rewritten.len(),
    ensures
        contents_after(placed(file.id, file.records@) + rest + rewritten.take(n)) == contents_after(
            placed(file.id, file.records@) + rest,
        ),
    decreases n,
{
    let old = placed(file.id, file.records@);
    let log = old + rest;
    if n == 0 {
        assert(log + rewritten.take(0) =~= log);
    } else {
        lemma_rewrites_keep_contents(s, file, rest, active, rewritten, n - 1);
        let positions = live_positions(active, file, file.records@.len() as int);
        lemma_live_positions(active, file, file.records@.len() as int);
        let p = positions[n - 1] as int;
        let r = rewritten[n - 1];
        assert(r.op == old[p].op);
        assert(is_live(active, file, p));
        lemma_live_is_last_put(s, file, rest, active, p);
        lemma_decided_by_last(log, old[p].op.key());
        assert(log[p] == old[p]);
        let so_far = log + rewritten.take(n - 1);
        lemma_reput_keeps_contents(so_far, r);
        assert(so_far.push(r) =~= log + rewritten.take(n));
    }
}

/// Where no record of two logs, one after the other, speaks of a key, none
/// of either does.
proof fn lemma_never_mentions_split(a: Seq<Placed>, b: Seq<Placed>, key: Seq<char>)
    requires
        never_mentions(a + b, key),
    ensures
        never_mentions(a, key),
        never_mentions(b, key),
{
    assert forall|j: int| 0 <= j < a.len() implies (#[trigger] a[j]).op.key() != key by {
        assert((a + b)[j] == a[j]);
    }
    assert forall|j: int| 0 <= j < b.len() implies (#[trigger] b[j]).op.key() != key by {
        assert((a + b)[a.len() + j] == b[j]);
    }
}

/// The records that are written again take no more bytes than the file
/// holds, and fewer where a record of the file is not written again.
proof fn lemma_rewrites_take_less(
    active: Map<u64, HashSet<u64>>,
    file: LogFile,
    rewritten: Seq<Placed>,
    n: int,
)
    requires
        file.records@.len() <= usize::MAX,
        records_fit(file.records@),
        rewrites(
            placed(file.id, file.records@),
            live_positions(active, file, file.records@.len() as int),
            rewritten,
        ),
        0 <= n <= file.records@.len(),
    ensures
        live_positions(active, file, n).len() <= rewritten.len(),
        bytes_of(rewritten.take(live_positions(active, file, n).len() as int)) <= bytes_of(
            placed(file.id, file.records@).take(n),
        ),
        (exists|i: int| 0 <= i < n && !is_live(active, file, i)) ==> bytes_of(
            rewritten.take(live_positions(active, file, n).len() as int),
        ) < bytes_of(placed(file.id, file.records@).take(n)),
    decreases n,
{
    let old = placed(file.id, file.records@);
    let all = live_positions(active, file, file.records@.len() as int);
    lemma_live_positions_prefix(active, file, n, file.records@.len() as int);
    let k = live_positions(active, file, n).len() as int;
    if n == 0 {
        assert(rewritten.take(0) =~= Seq::<Placed>::empty());
        assert(old.take(0) =~= Seq::<Placed>::empty());
    } else {
        lemma_rewrites_take_less(active, file, rewritten, n - 1);
        lemma_live_positions_prefix(active, file, n - 1, file.records@.len() as int);
        lemma_placed_shape(file.id, file.records@);
        let k0 = live_positions(active, file, n - 1).len() as int;
        assert(old.take(n).drop_last() =~= old.take(n - 1));
        assert(old.take(n).last() == old[n - 1]);
        assert(old[n - 1].at.len > 0);
        if is_live(active, file, n - 1) {
            assert(k == k0 + 1);
            assert(live_positions(active, file, n)[k0] == (n - 1) as usize);
            assert(all.take(k)[k0] == all[k0]);
            assert(all[k0] == (n - 1) as usize);
            assert(rewritten.take(k).drop_last() =~= rewritten.take(k0));
            assert(rewritten.take(k).last() == rewritten[k0]);
            assert(rewritten[k0].at.len == old[n - 1].at.len);
            if exists|i: int| 0 <= i < n && !is_live(active, file, i) {
                let i = choose|i: int| 0 <= i < n && !is_live(active, file, i);
                assert(0 <= i < n - 1 && !is_live(active, file, i));
            }
        } else {
            assert(k == k0);
        }
    }
}

/// Compaction keeps every value and never takes more room. Where a store
/// follows a log that begins with the records of a sealed log file, and the
/// live records of that file were written again behind the log, then
/// replaying the log without the file gives the contents that the whole log
/// gave, and the index that the store has after the rewrites; and the log
/// without the file takes no more bytes than the log with it, and fewer
/// where a record of the file did not have to be written again.
pub proof fn law_compaction_keeps_values(
    s: StoreView,
    file: LogFile,
    rest: Seq<Placed>,
    active: Map<u64, HashSet<u64>>,
    rewritten: Seq<Placed>,
)
    requires
        compaction_ready(s, file, rest, active),
        rewrites(
            placed(file.id, file.records@),
            live_positions(active, file, file.records@.len() as int),
            rewritten,
        ),
    ensures
        contents_after(rest + rewritten) == contents_after(placed(file.id, file.records@) + rest),
        index_after(rest + rewritten) == index_after(
            placed(file.id, file.records@) + rest + rewritten,
        ),
        bytes_of(rest + rewritten) <= bytes_of(placed(file.id, file.records@) + rest),
        (exists|i: int| 0 <= i < file.records@.len() && !is_live(active, file, i)) ==> bytes_of(
            rest + rewritten,
        ) < bytes_of(placed(file.id, file.records@) + rest),
{
    let old = placed(file.id, file.records@);
    let log = old + rest;
    let tail = rest + rewritten;
    let n = file.records@.len() as int;
    let positions = live_positions(active, file, n);
    lemma_live_positions(active, file, n);
    lemma_rewrites_keep_contents(s, file, rest, active, rewritten, rewritten.len() as int);
    assert(rewritten.take(rewritten.len() as int) =~= rewritten);
    assert(log + rewritten =~= old + tail);
    assert forall|key: Seq<char>|
        match #[trigger] last_index_of(old + tail, key) {
            Some(i) => i >= old.len() || (0 <= i < old.len() && old[i].op is Remove),
            None => true,
        } by {
        lemma_last_index_concat(old, tail, key);
        lemma_last_index_of(old + tail, key);
        lemma_last_index_of(old, key);
        lemma_last_index_of(tail, key);
        match last_index_of(old + tail, key) {
            Some(i) => {
                if i < old.len() {
                    assert(last_index_of(tail, key) is None);
                    assert(last_index_of(old, key) == Some(i));
                    lemma_never_mentions_split(rest, rewritten, key);
                    if old[i].op is Put {
                        lemma_last_index_concat(old, rest, key);
                        lemma_last_index_of(rest, key);
                        match last_index_of(rest, key) {
                            Some(j) => {
                                assert(rest[j].op.key() == key);
                            },
                            None => {},
                        }
                        assert(last_index_of(log, key) == Some(i));
                        lemma_live_is_last_put(s, file, rest, active, i);
                        assert(is_live(active, file, i));
                        let j = choose|j: int|
                            0 <= j < positions.len() && #[trigger] positions[j] == i;
                        assert(rewritten[j].op == old[i].op);
                        assert(rewritten[j].op.key() == key);
                    }
                }
            },
            None => {},
        }
    }
    lemma_drop_sealed_prefix(old, tail);
    lemma_bytes_concat(old, rest);
    lemma_bytes_concat(rest, rewritten);
    lemma_rewrites_take_less(active, file, rewritten, n);
    assert(rewritten.take(positions.len() as int) =~= rewritten);
    assert(old.take(n) =~= old);
}

/// The offsets that were collected before a pass stay right for the files
/// that the pass has yet to treat: a record that is written again moves its
/// key from the file in which it lay to the current file, and the index
/// points into any other file exactly where it did.
pub proof fn law_rewrites_leave_other_files_alone(
    s: StoreView,
    key: Seq<char>,
    len: u64,
    id: u64,
    offset: u64,
)
    requires
        s.index.dom().contains(key),
        s.index[key].log_id != id,
        s.log_id != id,
    ensures
        referenced(s.put(key, len).index, id, offset) <==> referenced(s.index, id, offset),
{
    let after = s.put(key, len).index;
    if referenced(s.index, id, offset) {
        let k = choose|k: Seq<char>| #[trigger]
            s.index.dom().contains(k) && s.index[k].log_id == id && s.index[k].offset == offset;
        assert(after.dom().contains(k) && after[k] == s.index[k]);
    }
    if referenced(after, id, offset) {
        let k = choose|k: Seq<char>| #[trigger]
            after.dom().contains(k) && after[k].log_id == id && after[k].offset == offset;
        assert(s.index.dom().contains(k) && after[k] == s.index[k]);
    }
}

/// After compaction the store follows the shorter log. Where a well formed
/// store follows a log that begins with all the records of its oldest sealed
/// log file, and replaying the log without them gives the same index, then
/// the store in which the file is retired follows the log without the file.
pub proof fn law_compacted_store_follows_log(
    s: StoreView,
    old: Seq<Placed>,
    tail: Seq<Placed>,
    id: u64,
    cmd_count: u64,
)
    requires
        s.wf(),
        tracks(s, old + tail),
        index_after(tail) == index_after(old + tail),
        s.oldest_sealed() == Some(id),
        forall|i: int| 0 <= i < old.len() ==> (#[trigger] old[i]).at.log_id == id,
        forall|i: int| 0 <= i < tail.len() ==> (#[trigger] tail[i]).at.log_id != id,
    ensures
        tracks(s.retired(id, cmd_count), tail),
        s.retired(id, cmd_count).index == s.index,
{
    let whole = old + tail;
    let after = s.retired(id, cmd_count);
    assert forall|i: int, j: int| 0 <= i < j < tail.len() implies !same_place(
        (#[trigger] tail[i]).at,
        (#[trigger] tail[j]).at,
    ) && tail[i].at.log_id <= tail[j].at.log_id by {
        assert(whole[old.len() + i] == tail[i]);
        assert(whole[old.len() + j] == tail[j]);
    }
    assert forall|i: int| 0 <= i < tail.len() implies behind_writer(after, #[trigger] tail[i])
        && in_known_file(after, tail[i]) by {
        assert(whole[old.len() + i] == tail[i]);
        assert(behind_writer(s, whole[old.len() + i]));
        assert(in_known_file(s, whole[old.len() + i]));
        if tail[i].at.log_id != s.log_id {
            let k = choose|k: int| 0 <= k < s.sealed.len() && s.sealed[k] == tail[i].at.log_id;
            assert(k > 0);
            assert(after.sealed[k - 1] == tail[i].at.log_id);
        }
    }
}

} // verus!
