//! Opening a store: rebuilding the index from what the log files hold.

use crate::error::KvStoreError;
use crate::kvstore::index::{index_entries, index_insert, index_new, index_remove, CommandIndex};
use crate::kvstore::model::{index_after, index_from, lemma_replay_concat, Placed};
use crate::kvstore::{Command, KvStore, LogFileWriter, StoreView, WriterControlData};
use vstd::prelude::*;

verus! {

/// A command as it was read from a log file, with the number of bytes that it
/// takes there.
#[derive(Debug, Clone, PartialEq, Eq)]
pub struct LogRecord {
    /// The command.
    pub cmd: Command,
    /// The number of bytes of its record.
    pub len: u64,
}

/// What a log file holds: its id and its complete records, in the order in
/// which they lie in the file. A partial record at the end of the file is not
/// among them.
#[derive(Debug, Clone, PartialEq, Eq)]
pub struct LogFile {
    /// The id of the file.
    pub id: u64,
    /// Its records, first to last.
    pub records: Vec<LogRecord>,
}

/// What an attempt to read the next record of a log file gave.
#[derive(Debug, PartialEq, Eq)]
pub enum ReadOutcome {
    /// A complete record.
    Record(LogRecord),
    /// The file ended: behind the last record, or within a record that was
    /// written in part.
    EndOfFile,
    /// The bytes are no record; the text says why.
    Corrupt(String),
}

impl LogFile {
    /// Log file `id` before any of its records was read.
    pub fn new(id: u64) -> (file: LogFile)
        ensures
            file.id == id,
            file.records@ == Seq::<LogRecord>::empty(),
    {
        LogFile { id, records: Vec::new() }
    }

    /// Takes in what the next read of the file gave, and tells whether to
    /// read on. A complete record joins the records, and the scan goes on.
    /// The end of the file ends the scan, also where it cuts a record short:
    /// such a record is left out. Bytes that are no record fail the scan
    /// with a `Bincode` error that carries the cause.
    pub fn take_in(&mut self, outcome: ReadOutcome) -> (r: Result<bool, KvStoreError>)
        ensures
            final(self).id == old(self).id,
            match outcome {
                ReadOutcome::Record(record) => {
                    &&& r == Ok::<bool, KvStoreError>(true)
                    &&& final(self).records@ == old(self).records@.push(record)
                },
                ReadOutcome::EndOfFile => {
                    &&& r == Ok::<bool, KvStoreError>(false)
                    &&& final(self).records@ == old(self).records@
                },
                ReadOutcome::Corrupt(cause) => {
                    &&& r == Err::<bool, KvStoreError>(KvStoreError::Bincode(cause))
                    &&& final(self).records@ == old(self).records@
                },
            },
    {
        match outcome {
            ReadOutcome::Record(record) => {
                self.records.push(record);
                Ok(true)
            },
            ReadOutcome::EndOfFile => Ok(false),
            ReadOutcome::Corrupt(cause) => Err(KvStoreError::Bincode(cause)),
        }
    }
}

/// The offset behind `records` in a file that holds them densely from its
/// start.
pub open spec fn end_offset(records: Seq<LogRecord>) -> int
    decreases records.len(),
{
    if records.len() == 0 {
        0
    } else {
        end_offset(records.drop_last()) + records.last().len
    }
}

/// Record `i` of `records` with its place in log file `id`.
pub open spec fn placed_at(id: u64, records: Seq<LogRecord>, i: int) -> Placed {
    Placed {
        at: CommandIndex {
            log_id: id,
            offset: end_offset(records.take(i)) as u64,
            len: records[i].len,
        },
        op: records[i].cmd@,
    }
}

/// The records of log file `id`, each with its place.
pub open spec fn placed(id: u64, records: Seq<LogRecord>) -> Seq<Placed> {
    Seq::new(records.len(), |i: int| placed_at(id, records, i))
}

/// The whole log: the records of all `files`, in order, each with its place.
pub open spec fn log_of(files: Seq<LogFile>) -> Seq<Placed>
    decreases files.len(),
{
    if files.len() == 0 {
        Seq::empty()
    } else {
        log_of(files.drop_last()) + placed(files.last().id, files.last().records@)
    }
}

/// The number of records in all `files`.
pub open spec fn total_records(files: Seq<LogFile>) -> int
    decreases files.len(),
{
    if files.len() == 0 {
        0
    } else {
        total_records(files.drop_last()) + files.last().records@.len()
    }
}

/// Whether the ids of `files` go strictly up.
pub open spec fn ids_ascending(files: Seq<LogFile>) -> bool {
    forall|i: int, j: int| 0 <= i < j < files.len() ==> files[i].id < files[j].id
}

/// Whether no record of `records` is empty and the offset behind them can be
/// held.
pub open spec fn records_fit(records: Seq<LogRecord>) -> bool {
    &&& forall|i: int| 0 <= i < records.len() ==> (#[trigger] records[i]).len > 0
    &&& end_offset(records) <= u64::MAX
}

/// Whether the records of every file fit, and the records of all files can be
/// counted.
pub open spec fn sizes_fit(files: Seq<LogFile>) -> bool {
    &&& forall|i: int| 0 <= i < files.len() ==> records_fit((#[trigger] files[i]).records@)
    &&& total_records(files) <= u64::MAX
}

/// The ids of `files`, in their order.
pub open spec fn file_ids(files: Seq<LogFile>) -> Seq<u64> {
    Seq::new(files.len(), |k: int| files[k].id)
}

/// The state of a store that was opened on `files`: the index after the
/// whole log; the writer at the end of the last file, or at the start of
/// file 0 where there is none; every file but the last sealed and within
/// compaction's reach; and no file retired yet.
pub open spec fn opened_on(files: Seq<LogFile>) -> StoreView {
    if files.len() == 0 {
        StoreView {
            index: Map::empty(),
            log_id: 0,
            offset: 0,
            cmd_counter: 0,
            total_cmd_counter: 0,
            sealed: Seq::empty(),
            last_collected: None,
        }
    } else {
        StoreView {
            index: index_after(log_of(files)),
            log_id: files.last().id,
            offset: end_offset(files.last().records@) as u64,
            cmd_counter: files.last().records@.len() as u64,
            total_cmd_counter: total_records(files) as u64,
            sealed: file_ids(files).drop_last(),
            last_collected: None,
        }
    }
}

/// The offset behind some records is no less than the offset behind the
/// first few of them.
pub proof fn lemma_end_offset_grows(records: Seq<LogRecord>, i: int)
    requires
        0 <= i <= records.len(),
    ensures
        0 <= end_offset(records.take(i)) <= end_offset(records),
    decreases records.len(),
{
    if i == records.len() {
        assert(records.take(i) =~= records);
        if records.len() > 0 {
            lemma_end_offset_grows(records.drop_last(), i - 1);
        }
    } else {
        lemma_end_offset_grows(records.drop_last(), i);
        assert(records.drop_last().take(i) =~= records.take(i));
    }
}

/// Whether the ids of `files` go strictly up.
pub fn check_ids_ascending(files: &Vec<LogFile>) -> (r: bool)
    ensures
        r == ids_ascending(files@),
{
    let mut i: usize = 1;
    while i < files.len()
        invariant
            1 <= i,
            forall|a: int, b: int| 0 <= a < b < i && b < files@.len() ==> files@[a].id < files@[b].id,
        decreases files.len() - i,
    {
        if files[i - 1].id >= files[i].id {
            return false;
        }
        assert forall|a: int, b: int| 0 <= a < b < i + 1 && b < files@.len() implies files@[a].id
            < files@[b].id by {
            if b == i {
                if a < i - 1 {
                    assert(files@[a].id < files@[i - 1].id);
                }
            }
        }
        i = i + 1;
    }
    true
}

impl KvStore {
    /// Replays the records of one log file on `index`, and gives the offset
    /// behind them. Fails with `WrongFileOffset` where the records do not
    /// fit.
    pub(crate) fn replay_file(
        index: &mut flurry::HashMap<String, CommandIndex>,
        file: &LogFile,
    ) -> (r: Result<u64, KvStoreError>)
        requires
            index_entries(*old(index)).dom().finite(),
        ensures
            index_entries(*final(index)).dom().finite(),
            match r {
                Ok(end) => {
                    &&& records_fit(file.records@)
                    &&& end == end_offset(file.records@)
                    &&& index_entries(*final(index)) == index_from(
                        index_entries(*old(index)),
                        placed(file.id, file.records@),
                    )
                },
                Err(e) => e == KvStoreError::WrongFileOffset && !records_fit(file.records@),
            },
    {
        let ghost start = index_entries(*index);
        let ghost records = file.records@;
        let ghost whole = placed(file.id, records);
        let mut offset: u64 = 0;
        let mut i: usize = 0;
        while i < file.records.len()
            invariant
                0 <= i <= records.len(),
                records == file.records@,
                whole == placed(file.id, records),
                offset == end_offset(records.take(i as int)),
                forall|k: int| 0 <= k < i ==> (#[trigger] records[k]).len > 0,
                index_entries(*index).dom().finite(),
                index_entries(*index) == index_from(start, whole.take(i as int)),
            decreases records.len() - i,
        {
            let record = &file.records[i];
            let ghost here = placed_at(file.id, records, i as int);
            proof {
                assert(records.take(i + 1).drop_last() =~= records.take(i as int));
                assert(whole.take(i + 1).drop_last() =~= whole.take(i as int));
                assert(whole.take(i + 1).last() == here);
                lemma_end_offset_grows(records, i + 1);
            }
            if record.len == 0 {
                return Err(KvStoreError::WrongFileOffset);
            }
            let end = match offset.checked_add(record.len) {
                Some(end) => end,
                None => {
                    return Err(KvStoreError::WrongFileOffset);
                },
            };
            match &record.cmd {
                Command::Put { key, value: _ } => {
                    let at = CommandIndex { log_id: file.id, offset, len: record.len };
                    index_insert(index, key.clone(), at);
                },
                Command::Remove { key } => {
                    let _previous = index_remove(index, key.as_str());
                },
            }
            offset = end;
            i = i + 1;
        }
        proof {
            assert(records.take(i as int) =~= records);
            assert(whole.take(i as int) =~= whole);
        }
        Ok(offset)
    }

    /// Replays all records of `files`, in order, on an empty index. Gives the
    /// index, the number of records in all, and of the last file its id, the
    /// number of its records and the offset behind them; where there is no
    /// file, the last three are 0. Fails with `WrongFileOffset` where the
    /// sizes do not fit.
    pub(crate) fn build_index(files: &Vec<LogFile>) -> (r: Result<
        (flurry::HashMap<String, CommandIndex>, u64, u64, u64, u64),
        KvStoreError,
    >)
        ensures
            match r {
                Ok((index, total_cmds_counter, curr_log_id, cmd_counter, offset)) => {
                    &&& sizes_fit(files@)
                    &&& index_entries(index).dom().finite()
                    &&& index_entries(index) == index_after(log_of(files@))
                    &&& total_cmds_counter == total_records(files@)
                    &&& curr_log_id == opened_on(files@).log_id
                    &&& cmd_counter == opened_on(files@).cmd_counter
                    &&& offset == opened_on(files@).offset
                },
                Err(e) => e == KvStoreError::WrongFileOffset && !sizes_fit(files@),
            },
    {
        let mut storage_index = index_new();
        let mut total_cmds_counter: u64 = 0;
        let mut curr_log_id: u64 = 0;
        let mut cmd_counter: u64 = 0;
        let mut offset: u64 = 0;
        let mut i: usize = 0;
        while i < files.len()
            invariant
                0 <= i <= files@.len(),
                index_entries(storage_index).dom().finite(),
                index_entries(storage_index) == index_after(log_of(files@.take(i as int))),
                total_cmds_counter == total_records(files@.take(i as int)),
                forall|k: int| 0 <= k < i ==> records_fit((#[trigger] files@[k]).records@),
                curr_log_id == opened_on(files@.take(i as int)).log_id,
                cmd_counter == opened_on(files@.take(i as int)).cmd_counter,
                offset == opened_on(files@.take(i as int)).offset,
            decreases files@.len() - i,
        {
            let file = &files[i];
            let ghost before = files@.take(i as int);
            let ghost after = files@.take(i + 1);
            proof {
                assert(after.drop_last() =~= before);
                assert(after.last() == files@[i as int]);
                lemma_replay_concat(
                    Map::empty(),
                    Map::empty(),
                    log_of(before),
                    placed(file.id, file.records@),
                );
                lemma_total_records_grows(files@, i + 1);
            }
            offset = KvStore::replay_file(&mut storage_index, file)?;
            let count = file.records.len() as u64;
            total_cmds_counter = match total_cmds_counter.checked_add(count) {
                Some(t) => t,
                None => {
                    return Err(KvStoreError::WrongFileOffset);
                },
            };
            curr_log_id = file.id;
            cmd_counter = count;
            i = i + 1;
        }
        proof {
            assert(files@.take(i as int) =~= files@);
        }
        Ok((storage_index, total_cmds_counter, curr_log_id, cmd_counter, offset))
    }

    /// Opens the store on what the log files hold.
    ///
    /// `files` are the log files of the data directory with their complete
    /// records, in the order of their ids. The index is rebuilt by replaying
    /// every record in order; the writer stands at the end of the last file,
    /// or at the start of file 0 where there is none; every other file is
    /// sealed and awaits compaction. Fails with
    /// `WrongFileNameFormat` where the ids do not go strictly up, and else
    /// with `WrongFileOffset` where the sizes do not fit.
    pub fn open(files: &Vec<LogFile>) -> (r: Result<KvStore, KvStoreError>)
        ensures
            match r {
                Ok(store) => {
                    &&& ids_ascending(files@)
                    &&& sizes_fit(files@)
                    &&& store@ == opened_on(files@)
                    &&& store@.wf()
                },
                Err(e) => if !ids_ascending(files@) {
                    e == KvStoreError::WrongFileNameFormat
                } else {
                    e == KvStoreError::WrongFileOffset && !sizes_fit(files@)
                },
            },
    {
        if !check_ids_ascending(files) {
            return Err(KvStoreError::WrongFileNameFormat);
        }
        let (storage_index, total_cmd_counter, log_id, cmd_counter, offset) = KvStore::build_index(
            files,
        )?;
        proof {
            if files@.len() > 0 {
                lemma_total_records_grows(files@, files@.len() as int);
                assert(files@.take(files@.len() as int) =~= files@);
            }
        }
        let curr_log_w = LogFileWriter::open(log_id, cmd_counter, offset);
        let writer_ctrl = WriterControlData::new(curr_log_w, total_cmd_counter);
        let mut sealed: Vec<u64> = Vec::new();
        let sealed_count = if files.len() == 0 {
            0
        } else {
            files.len() - 1
        };
        let mut i: usize = 0;
        while i < sealed_count
            invariant
                0 <= i <= sealed_count,
                files@.len() == 0 ==> sealed_count == 0,
                files@.len() > 0 ==> sealed_count == files@.len() - 1,
                files@.len() > 0 ==> sealed@ == file_ids(files@).drop_last().take(i as int),
                files@.len() == 0 ==> sealed@ == Seq::<u64>::empty(),
            decreases sealed_count - i,
        {
            sealed.push(files[i].id);
            proof {
                let all = file_ids(files@).drop_last();
                assert(all.take(i + 1) =~= all.take(i as int).push(files@[i as int].id));
            }
            i = i + 1;
        }
        proof {
            if files@.len() > 0 {
                let all = file_ids(files@).drop_last();
                assert(all.take(i as int) =~= all);
                assert forall|a: int, b: int| 0 <= a < b < all.len() implies all[a] < all[b] by {
                    assert(files@[a].id < files@[b].id);
                }
                assert forall|a: int| 0 <= a < all.len() implies all[a] < files@.last().id by {
                    assert(files@[a].id < files@[files@.len() - 1].id);
                }
            }
        }
        Ok(KvStore { storage_index, writer_ctrl, sealed, last_collected_file_index: None })
    }
}

/// The number of records in the first few files is no more than the number in
/// all, and no less than the number in the last of those few.
pub proof fn lemma_total_records_grows(files: Seq<LogFile>, i: int)
    requires
        0 <= i <= files.len(),
    ensures
        0 <= total_records(files.take(i)) <= total_records(files),
        i > 0 ==> files[i - 1].records@.len() <= total_records(files.take(i)),
    decreases files.len(),
{
    if i == files.len() {
        assert(files.take(i) =~= files);
        if files.len() > 0 {
            lemma_total_records_grows(files.drop_last(), i - 1);
        }
    } else {
        lemma_total_records_grows(files.drop_last(), i);
        assert(files.drop_last().take(i) =~= files.take(i));
    }
}

} // verus!
