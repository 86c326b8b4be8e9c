//! What holds of opening: a store that was opened on log files follows the
//! log that the files hold.

use crate::kvstore::laws::{
    behind_writer, distinct_places, file_by_file, in_known_file, same_place, tracks,
};
use crate::kvstore::model::Placed;
use crate::kvstore::scan::{
    end_offset, file_ids, ids_ascending, lemma_end_offset_grows, lemma_total_records_grows,
    log_of, opened_on, placed, placed_at, records_fit, sizes_fit, LogFile, LogRecord,
};
use vstd::prelude::*;

verus! {

/// Of records that fit, each ends where the next begins or before, so that
/// later records begin at greater offsets.
pub proof fn lemma_offsets_go_up(records: Seq<LogRecord>, i: int, j: int)
    requires
        records_fit(records),
        0 <= i < j <= records.len(),
    ensures
        end_offset(records.take(i)) + records[i].len <= end_offset(records.take(j)),
        end_offset(records.take(i)) < end_offset(records.take(j)),
    decreases j - i,
{
    assert(records.take(i + 1).drop_last() =~= records.take(i));
    assert(records.take(i + 1).last() == records[i]);
    if j > i + 1 {
        lemma_offsets_go_up(records, i + 1, j);
        lemma_end_offset_grows(records, i + 1);
    }
}

/// The records of one log file, placed: each lies in that file, is not
/// empty, ends no later than the file, and begins behind every earlier one.
pub proof fn lemma_placed_shape(id: u64, records: Seq<LogRecord>)
    requires
        records_fit(records),
    ensures
        placed(id, records).len() == records.len(),
        forall|i: int|
            0 <= i < records.len() ==> {
                let r = #[trigger] placed(id, records)[i];
                &&& r.at.log_id == id
                &&& r.at.len > 0
                &&& r.at.offset + r.at.len <= end_offset(records)
            },
        forall|i: int, j: int|
            0 <= i < j < records.len() ==> (#[trigger] placed(id, records)[i]).at.offset < (
            #[trigger] placed(id, records)[j]).at.offset,
{
    let p = placed(id, records);
    assert forall|i: int| 0 <= i < records.len() implies {
        let r = #[trigger] p[i];
        &&& r.at.log_id == id
        &&& r.at.len > 0
        &&& r.at.offset + r.at.len <= end_offset(records)
    } by {
        assert(p[i] == placed_at(id, records, i));
        lemma_end_offset_grows(records, i);
        lemma_offsets_go_up(records, i, records.len() as int);
        assert(records.take(records.len() as int) =~= records);
    }
    assert forall|i: int, j: int| 0 <= i < j < records.len() implies (#[trigger] p[i]).at.offset < (
    #[trigger] p[j]).at.offset by {
        assert(p[i] == placed_at(id, records, i));
        assert(p[j] == placed_at(id, records, j));
        lemma_offsets_go_up(records, i, j);
        lemma_end_offset_grows(records, i);
        lemma_end_offset_grows(records, j);
    }
}

/// The log of files whose ids go up and whose records fit: no two records
/// share a place; the records lie file by file, each in one of the files;
/// and every record lies in an older file than the last, or in the last
/// file before its end.
pub proof fn lemma_log_shape(files: Seq<LogFile>)
    requires
        ids_ascending(files),
        forall|k: int| 0 <= k < files.len() ==> records_fit((#[trigger] files[k]).records@),
        files.len() > 0,
    ensures
        distinct_places(log_of(files)),
        file_by_file(log_of(files)),
        forall|i: int|
            0 <= i < log_of(files).len() ==> file_ids(files).contains(
                (#[trigger] log_of(files)[i]).at.log_id,
            ),
        forall|i: int|
            0 <= i < log_of(files).len() ==> {
                let r = #[trigger] log_of(files)[i];
                &&& r.at.len > 0
                &&& r.at.log_id < files.last().id || (r.at.log_id == files.last().id
                    && r.at.offset + r.at.len <= end_offset(files.last().records@))
            },
    decreases files.len(),
{
    let front = files.drop_last();
    let last = files.last();
    let head = log_of(front);
    let tail = placed(last.id, last.records@);
    let log = log_of(files);
    assert(log == head + tail);
    lemma_placed_shape(last.id, last.records@);
    if front.len() > 0 {
        assert forall|a: int, b: int| 0 <= a < b < front.len() implies front[a].id
            < front[b].id by {
            assert(front[a] == files[a] && front[b] == files[b]);
        }
        assert forall|k: int| 0 <= k < front.len() implies records_fit(
            (#[trigger] front[k]).records@,
        ) by {
            assert(front[k] == files[k]);
        }
        lemma_log_shape(front);
        assert(front.last() == files[files.len() - 2]);
        assert(front.last().id < last.id);
    } else {
        assert(head =~= Seq::<Placed>::empty());
    }
    assert forall|i: int| 0 <= i < log.len() implies {
        let r = #[trigger] log[i];
        &&& r.at.len > 0
        &&& r.at.log_id < last.id || (r.at.log_id == last.id && r.at.offset + r.at.len
            <= end_offset(last.records@))
    } by {
        if i < head.len() {
            assert(log[i] == head[i]);
        } else {
            assert(log[i] == tail[i - head.len()]);
        }
    }
    assert forall|i: int, j: int| 0 <= i < j < log.len() implies !same_place(
        (#[trigger] log[i]).at,
        (#[trigger] log[j]).at,
    ) && log[i].at.log_id <= log[j].at.log_id by {
        if j < head.len() {
            assert(log[i] == head[i] && log[j] == head[j]);
        } else if i < head.len() {
            assert(log[i] == head[i]);
            assert(log[j] == tail[j - head.len()]);
        } else {
            assert(log[i] == tail[i - head.len()]);
            assert(log[j] == tail[j - head.len()]);
        }
    }
    assert forall|i: int| 0 <= i < log.len() implies file_ids(files).contains(
        (#[trigger] log[i]).at.log_id,
    ) by {
        if i < head.len() {
            assert(log[i] == head[i]);
            let k = choose|k: int|
                0 <= k < file_ids(front).len() && file_ids(front)[k] == head[i].at.log_id;
            assert(file_ids(files)[k] == head[i].at.log_id);
        } else {
            assert(log[i] == tail[i - head.len()]);
            assert(file_ids(files)[files.len() - 1] == last.id);
        }
    }
}

/// Replaying a log gives an index of finitely many keys.
pub proof fn lemma_replay_keeps_index_finite(log: Seq<Placed>)
    ensures
        crate::kvstore::model::index_after(log).dom().finite(),
    decreases log.len(),
{
    if log.len() > 0 {
        lemma_replay_keeps_index_finite(log.drop_last());
    }
}

/// Reopening restores the store: a store that is opened on log files whose
/// ids go up and whose sizes fit is well formed and follows the log that the
/// files hold. With what holds of every store that follows its log, each
/// lookup then gives the value that the last record for its key set.
pub proof fn law_reopened_store_follows_log(files: Seq<LogFile>)
    requires
        ids_ascending(files),
        sizes_fit(files),
    ensures
        tracks(opened_on(files), log_of(files)),
        opened_on(files).wf(),
{
    let s = opened_on(files);
    let log = log_of(files);
    if files.len() > 0 {
        lemma_log_shape(files);
        lemma_total_records_grows(files, files.len() as int);
        lemma_end_offset_grows(files.last().records@, files.last().records@.len() as int);
        assert(files.last().records@.take(files.last().records@.len() as int)
            =~= files.last().records@);
        assert forall|i: int| 0 <= i < log.len() implies behind_writer(s, #[trigger] log[i])
            && in_known_file(s, log[i]) by {
            let id = log[i].at.log_id;
            let k = choose|k: int| 0 <= k < file_ids(files).len() && file_ids(files)[k] == id;
            if k < files.len() - 1 {
                assert(s.sealed[k] == id);
            }
        }
        assert forall|a: int, b: int| 0 <= a < b < s.sealed.len() implies s.sealed[a]
            < s.sealed[b] by {
            assert(files[a].id < files[b].id);
        }
        assert forall|a: int| 0 <= a < s.sealed.len() implies s.sealed[a] < s.log_id by {
            assert(files[a].id < files[files.len() - 1].id);
        }
        lemma_replay_keeps_index_finite(log);
    } else {
        assert(log =~= Seq::<Placed>::empty());
    }
}

} // verus!
