//! The bookkeeping of the log-structured storage engine.
//!
//! The engine keeps an append-only log in numbered files and, in memory, an
//! index from each live key to the place of its latest record. What is here
//! is the part that decides: where a record goes, what the index holds after
//! it, when a new file is due, and what a compaction pass rewrites and
//! retires. Reading and writing the files is the caller's part.

pub mod compaction;
pub mod grouping;
pub mod index;
pub mod laws;
pub mod model;
pub mod names;
pub mod reopen;
pub mod retire;
pub mod scan;

use crate::error::KvStoreError;
use crate::kvstore::index::{
    index_entries, index_get, index_insert, index_len, index_remove, CommandIndex, IndexView,
};
use crate::kvstore::model::Op;
use vstd::prelude::*;

verus! {

/// A lower bound on the total number of commands in the log files before
/// compaction is due. Half of it bounds the commands of one file before a new
/// file is due.
pub const CMDS_THRESHOLD: u64 = 10000;

/// The write offset beyond which a new file is due.
pub const CURR_FILE_OFFSET_THRESHOLD: u64 = 1073741824;

/// What is saved to the log files for the calls `set` and `remove`.
#[derive(Debug, Clone, PartialEq, Eq)]
pub enum Command {
    /// Binds `key` to `value`.
    Put {
        /// The key.
        key: String,
        /// Its new value.
        value: String,
    },
    /// Marks `key` as deleted.
    Remove {
        /// The key.
        key: String,
    },
}

impl View for Command {
    type V = Op;

    open spec fn view(&self) -> Op {
        match *self {
            Command::Put { key, value } => Op::Put { key: key@, value: value@ },
            Command::Remove { key } => Op::Remove { key: key@ },
        }
    }
}

/// Where the current log file stands: its id, the number of commands in it,
/// and the offset at which the next command goes.
#[derive(Debug)]
pub struct LogFileWriter {
    id: u64,
    cmd_counter: u64,
    offset: u64,
}

impl LogFileWriter {
    /// The state of a writer on log file `id` that holds `cmd_counter`
    /// commands in `offset` bytes.
    pub fn open(id: u64, cmd_counter: u64, offset: u64) -> (w: Self)
        ensures
            w.id() == id,
            w.cmd_counter() == cmd_counter,
            w.offset() == offset,
    {
        LogFileWriter { id, cmd_counter, offset }
    }

    /// Turns to the new, empty log file `id`.
    pub fn open_another(&mut self, id: u64)
        ensures
            final(self).id() == id,
            final(self).cmd_counter() == 0,
            final(self).offset() == 0,
    {
        self.id = id;
        self.cmd_counter = 0;
        self.offset = 0;
    }

    /// The id of the log file.
    pub closed spec fn spec_id(&self) -> u64 {
        self.id
    }

    /// The number of commands in the log file.
    pub closed spec fn spec_cmd_counter(&self) -> u64 {
        self.cmd_counter
    }

    /// The offset at which the next command goes.
    pub closed spec fn spec_offset(&self) -> u64 {
        self.offset
    }

    /// Get the log file writer's id.
    #[verifier::when_used_as_spec(spec_id)]
    pub fn id(&self) -> (r: u64)
        ensures
            r == self.spec_id(),
    {
        self.id
    }

    /// Get the log file writer's cmd counter.
    #[verifier::when_used_as_spec(spec_cmd_counter)]
    pub fn cmd_counter(&self) -> (r: u64)
        ensures
            r == self.spec_cmd_counter(),
    {
        self.cmd_counter
    }

    /// Get the log file writer's offset.
    #[verifier::when_used_as_spec(spec_offset)]
    pub fn offset(&self) -> (r: u64)
        ensures
            r == self.spec_offset(),
    {
        self.offset
    }

    /// Whether a command of `cmd_len` bytes can be appended: it is not empty
    /// and the offset behind it can be held.
    pub open spec fn can_append(&self, cmd_len: u64) -> bool {
        cmd_len > 0 && self.offset() + cmd_len <= u64::MAX && self.cmd_counter() < u64::MAX
    }

    /// Records that a command of `cmd_len` bytes was appended: the offset
    /// moves past it and the command counter goes up by one. Gives the place
    /// of the command. Changes nothing where the command cannot be appended.
    pub fn append_cmd(&mut self, cmd_len: u64) -> (r: Result<CommandIndex, KvStoreError>)
        ensures
            match r {
                Ok(at) => {
                    &&& old(self).can_append(cmd_len)
                    &&& at == (CommandIndex {
                        log_id: old(self).id(),
                        offset: old(self).offset(),
                        len: cmd_len,
                    })
                    &&& final(self).id() == old(self).id()
                    &&& final(self).offset() == old(self).offset() + cmd_len
                    &&& final(self).cmd_counter() == old(self).cmd_counter() + 1
                },
                Err(e) => {
                    &&& e == KvStoreError::WrongFileOffset
                    &&& !old(self).can_append(cmd_len)
                    &&& *final(self) == *old(self)
                },
            },
    {
        if cmd_len == 0 || self.cmd_counter == u64::MAX {
            return Err(KvStoreError::WrongFileOffset);
        }
        match self.offset.checked_add(cmd_len) {
            Some(end) => {
                let at = CommandIndex { log_id: self.id, offset: self.offset, len: cmd_len };
                self.offset = end;
                self.cmd_counter = self.cmd_counter + 1;
                Ok(at)
            },
            None => Err(KvStoreError::WrongFileOffset),
        }
    }
}

/// What the writer keeps: the state of the current log file, and the number
/// of commands in all log files that were not retired.
#[derive(Debug)]
pub struct WriterControlData {
    curr_log: LogFileWriter,
    total_cmd_counter: u64,
}

impl WriterControlData {
    /// The writer's data for the current log file `curr_log` and
    /// `total_cmd_counter` commands in all.
    pub fn new(curr_log: LogFileWriter, total_cmd_counter: u64) -> (w: Self)
        ensures
            w.curr_log() == curr_log,
            w.total_cmd_counter() == total_cmd_counter,
    {
        WriterControlData { curr_log, total_cmd_counter }
    }

    /// The state of the current log file.
    pub closed spec fn curr_log(&self) -> LogFileWriter {
        self.curr_log
    }

    /// The number of commands in all log files.
    pub closed spec fn spec_total_cmd_counter(&self) -> u64 {
        self.total_cmd_counter
    }

    /// Get the writer control data's total cmd counter.
    #[verifier::when_used_as_spec(spec_total_cmd_counter)]
    pub fn total_cmd_counter(&self) -> (r: u64)
        ensures
            r == self.spec_total_cmd_counter(),
    {
        self.total_cmd_counter
    }

    /// Get a mutable reference to the writer control data's curr log.
    pub fn curr_log_mut(&mut self) -> (r: &mut LogFileWriter)
        ensures
            *r == old(self).curr_log(),
            final(self).curr_log() == *final(r),
            final(self).total_cmd_counter() == old(self).total_cmd_counter(),
    {
        &mut self.curr_log
    }

    /// Counts one more command. The counter must not be at its end.
    pub fn inc_total_cmd_counter(&mut self)
        requires
            old(self).total_cmd_counter() < u64::MAX,
        ensures
            final(self).total_cmd_counter() == old(self).total_cmd_counter() + 1,
            final(self).curr_log() == old(self).curr_log(),
    {
        self.total_cmd_counter = self.total_cmd_counter + 1;
    }

    /// Takes `val` commands off the count. There must be that many.
    pub fn sub_total_cmd_counter(&mut self, val: u64)
        requires
            val <= old(self).total_cmd_counter(),
        ensures
            final(self).total_cmd_counter() == old(self).total_cmd_counter() - val,
            final(self).curr_log() == old(self).curr_log(),
    {
        self.total_cmd_counter = self.total_cmd_counter - val;
    }
}

/// The state of a store, as mathematics.
pub struct StoreView {
    /// The index: each live key with the place of its latest record.
    pub index: IndexView,
    /// The id of the current log file.
    pub log_id: u64,
    /// The offset at which the next command goes.
    pub offset: u64,
    /// The number of commands in the current log file.
    pub cmd_counter: u64,
    /// The number of commands in all log files that were not retired.
    pub total_cmd_counter: u64,
    /// The ids of the sealed log files that were not retired, oldest first.
    pub sealed: Seq<u64>,
    /// The id of the log file that was retired last, if one was.
    pub last_collected: Option<u64>,
}

impl StoreView {
    /// What holds of every store: the index holds finitely many keys; the
    /// current log file holds no more commands than there are in all; the
    /// ids of the sealed files go strictly up and lie below the id of the
    /// current file; and the file that was retired last is older than all
    /// of them.
    pub open spec fn wf(self) -> bool {
        &&& self.index.dom().finite()
        &&& self.cmd_counter <= self.total_cmd_counter
        &&& forall|i: int, j: int|
            0 <= i < j < self.sealed.len() ==> self.sealed[i] < self.sealed[j]
        &&& forall|i: int| 0 <= i < self.sealed.len() ==> self.sealed[i] < self.log_id
        &&& self.last_collected matches Some(w) ==> w < self.log_id && forall|i: int|
            0 <= i < self.sealed.len() ==> w < self.sealed[i]
    }

    /// The oldest sealed log file that was not retired, if there is one.
    pub open spec fn oldest_sealed(self) -> Option<u64> {
        if self.sealed.len() > 0 {
            Some(self.sealed[0])
        } else {
            None
        }
    }

    /// Whether a command of `len` bytes can be appended: it is not empty, and
    /// the offset behind it and the counters can be held.
    pub open spec fn can_append(self, len: u64) -> bool {
        &&& len > 0
        &&& self.offset + len <= u64::MAX
        &&& self.cmd_counter < u64::MAX
        &&& self.total_cmd_counter < u64::MAX
    }

    /// The place at which the next command of `len` bytes goes.
    pub open spec fn next_place(self, len: u64) -> CommandIndex {
        CommandIndex { log_id: self.log_id, offset: self.offset, len }
    }

    /// The state after a command of `len` bytes was appended, the index aside.
    pub open spec fn appended(self, len: u64) -> StoreView {
        StoreView {
            offset: (self.offset + len) as u64,
            cmd_counter: (self.cmd_counter + 1) as u64,
            total_cmd_counter: (self.total_cmd_counter + 1) as u64,
            ..self
        }
    }

    /// The state after a command of `len` bytes that binds `key` was appended.
    pub open spec fn put(self, key: Seq<char>, len: u64) -> StoreView {
        StoreView { index: self.index.insert(key, self.next_place(len)), ..self.appended(len) }
    }

    /// The state after a command of `len` bytes that removes `key` was
    /// appended.
    pub open spec fn removed(self, key: Seq<char>, len: u64) -> StoreView {
        StoreView { index: self.index.remove(key), ..self.appended(len) }
    }

    /// The state after the turn to a new, empty log file: the file that was
    /// current is sealed.
    pub open spec fn rolled(self) -> StoreView {
        StoreView {
            log_id: (self.log_id + 1) as u64,
            offset: 0,
            cmd_counter: 0,
            sealed: self.sealed.push(self.log_id),
            ..self
        }
    }

    /// The state after the oldest sealed log file, `id`, which held
    /// `cmd_count` commands, was retired.
    pub open spec fn retired(self, id: u64, cmd_count: u64) -> StoreView {
        StoreView {
            total_cmd_counter: (self.total_cmd_counter - cmd_count) as u64,
            sealed: self.sealed.drop_first(),
            last_collected: Some(id),
            ..self
        }
    }

    /// Whether a new log file is due: the current one is beyond the size or
    /// the command threshold.
    pub open spec fn rollover_due(self) -> bool {
        self.offset > CURR_FILE_OFFSET_THRESHOLD || self.cmd_counter > CMDS_THRESHOLD / 2
    }

    /// Whether compaction is due: there are more commands than the threshold,
    /// and more than one and a half for each live key.
    pub open spec fn compaction_due(self) -> bool {
        self.total_cmd_counter > CMDS_THRESHOLD && 2 * self.total_cmd_counter > 3
            * self.index.dom().len()
    }

    /// Whether log file `id` is sealed and was not retired yet. In a well
    /// formed store such a file is older than the current one and younger
    /// than the one retired last.
    pub open spec fn is_candidate(self, id: u64) -> bool {
        self.sealed.contains(id)
    }
}

/// The bookkeeping of a persistent key-value store: the index, the state of
/// the writer, the ids of the sealed log files, and the id of the log file
/// that compaction retired last.
#[derive(Debug)]
pub struct KvStore {
    storage_index: flurry::HashMap<String, CommandIndex>,
    writer_ctrl: WriterControlData,
    sealed: Vec<u64>,
    last_collected_file_index: Option<u64>,
}

impl View for KvStore {
    type V = StoreView;

    closed spec fn view(&self) -> StoreView {
        StoreView {
            index: index_entries(self.storage_index),
            log_id: self.writer_ctrl.curr_log().id(),
            offset: self.writer_ctrl.curr_log().offset(),
            cmd_counter: self.writer_ctrl.curr_log().cmd_counter(),
            total_cmd_counter: self.writer_ctrl.total_cmd_counter(),
            sealed: self.sealed@,
            last_collected: self.last_collected_file_index,
        }
    }
}

impl KvStore {

    /// The id of the current log file.
    pub fn log_id(&self) -> (r: u64)
        ensures
            r == self@.log_id,
    {
        self.writer_ctrl.curr_log.id()
    }

    /// The offset at which the next command goes.
    pub fn offset(&self) -> (r: u64)
        ensures
            r == self@.offset,
    {
        self.writer_ctrl.curr_log.offset()
    }

    /// The number of commands in the current log file.
    pub fn cmd_counter(&self) -> (r: u64)
        ensures
            r == self@.cmd_counter,
    {
        self.writer_ctrl.curr_log.cmd_counter()
    }

    /// The number of commands in all log files that were not retired.
    pub fn total_cmd_counter(&self) -> (r: u64)
        ensures
            r == self@.total_cmd_counter,
    {
        self.writer_ctrl.total_cmd_counter()
    }

    /// The id of the log file that was retired last, if one was.
    pub fn last_collected(&self) -> (r: Option<u64>)
        ensures
            r == self@.last_collected,
    {
        self.last_collected_file_index
    }

    /// The oldest sealed log file that was not retired, if there is one: the
    /// file that compaction treats next.
    pub fn oldest_sealed(&self) -> (r: Option<u64>)
        ensures
            r == self@.oldest_sealed(),
    {
        if self.sealed.len() > 0 {
            Some(self.sealed[0])
        } else {
            None
        }
    }

    /// The number of live keys.
    pub fn len(&self) -> (r: usize)
        ensures
            r == self@.index.dom().len(),
    {
        index_len(&self.storage_index)
    }

    /// Check if it should run compaction algorithm
    pub fn should_run_compaction(&self) -> (r: bool)
        ensures
            r == self@.compaction_due(),
    {
        let total = self.writer_ctrl.total_cmd_counter();
        let keys = index_len(&self.storage_index);
        total > CMDS_THRESHOLD && 2 * (total as u128) > 3 * (keys as u128)
    }

    /// Check if it should create a new log file
    pub fn should_create_new_file(&self) -> (r: bool)
        ensures
            r == self@.rollover_due(),
    {
        self.writer_ctrl.curr_log.offset() > CURR_FILE_OFFSET_THRESHOLD
            || self.writer_ctrl.curr_log.cmd_counter() > CMDS_THRESHOLD / 2
    }

    /// The id that the next log file gets: one more than the current id.
    /// There is none behind the last id that can be held.
    pub fn next_log_id(&self) -> (r: Option<u64>)
        ensures
            r == if self@.log_id < u64::MAX {
                Some((self@.log_id + 1) as u64)
            } else {
                None
            },
    {
        self.writer_ctrl.curr_log.id().checked_add(1)
    }

    /// Turns to a new, empty log file, whose id is one more than the current
    /// id, and gives that id; the file that was current is sealed. Changes
    /// nothing, and fails with `WrongFileNameFormat`, where there is no
    /// further id.
    pub fn do_create_new_file(&mut self) -> (r: Result<u64, KvStoreError>)
        ensures
            match r {
                Ok(id) => {
                    &&& old(self)@.log_id < u64::MAX
                    &&& id == old(self)@.log_id + 1
                    &&& final(self)@ == old(self)@.rolled()
                    &&& old(self)@.wf() ==> final(self)@.wf()
                },
                Err(e) => {
                    &&& e == KvStoreError::WrongFileNameFormat
                    &&& old(self)@.log_id == u64::MAX
                    &&& final(self)@ == old(self)@
                },
            },
    {
        match self.writer_ctrl.curr_log.id().checked_add(1) {
            Some(new_file_id) => {
                self.sealed.push(self.writer_ctrl.curr_log.id());
                self.writer_ctrl.curr_log.open_another(new_file_id);
                Ok(new_file_id)
            },
            None => Err(KvStoreError::WrongFileNameFormat),
        }
    }

    /// Records that a command of `len` bytes was written to the current log:
    /// the writer moves past it and both counters go up by one. Gives the
    /// place of the command. Changes nothing, and fails with
    /// `WrongFileOffset`, where the command cannot be appended.
    fn write_cmd_to_curr_log(&mut self, len: u64) -> (r: Result<CommandIndex, KvStoreError>)
        ensures
            match r {
                Ok(at) => {
                    &&& old(self)@.can_append(len)
                    &&& at == old(self)@.next_place(len)
                    &&& final(self)@ == old(self)@.appended(len)
                },
                Err(e) => {
                    &&& e == KvStoreError::WrongFileOffset
                    &&& !old(self)@.can_append(len)
                    &&& final(self)@ == old(self)@
                },
            },
    {
        if self.writer_ctrl.total_cmd_counter() == u64::MAX {
            return Err(KvStoreError::WrongFileOffset);
        }
        let at = self.writer_ctrl.curr_log.append_cmd(len)?;
        self.writer_ctrl.inc_total_cmd_counter();
        Ok(at)
    }

    /// Records that a command of `len` bytes that binds `key` was written to
    /// the current log: the index points `key` at it and the writer moves
    /// past it. Changes nothing, and fails with `WrongFileOffset`, where the
    /// command cannot be appended.
    pub fn insert_entry(&mut self, key: String, len: u64) -> (r: Result<(), KvStoreError>)
        ensures
            match r {
                Ok(()) => {
                    &&& old(self)@.can_append(len)
                    &&& final(self)@ == old(self)@.put(key@, len)
                    &&& old(self)@.wf() ==> final(self)@.wf()
                },
                Err(e) => {
                    &&& e == KvStoreError::WrongFileOffset
                    &&& !old(self)@.can_append(len)
                    &&& final(self)@ == old(self)@
                },
            },
    {
        let at = self.write_cmd_to_curr_log(len)?;
        index_insert(&mut self.storage_index, key, at);
        Ok(())
    }

    /// The place of the latest record of `key`, if the key is live.
    pub fn locate(&self, key: &str) -> (r: Option<CommandIndex>)
        ensures
            r == if self@.index.dom().contains(key@) {
                Some(self@.index[key@])
            } else {
                None
            },
    {
        index_get(&self.storage_index, key)
    }

    /// Records that a command of `len` bytes that removes `key` was written
    /// to the current log: the index drops `key` and the writer moves past
    /// the command. Changes nothing where it fails: with
    /// `RemoveNonExistentKey` where `key` is not live, and else with
    /// `WrongFileOffset` where the command cannot be appended.
    pub fn remove_entry(&mut self, key: &str, len: u64) -> (r: Result<(), KvStoreError>)
        ensures
            match r {
                Ok(()) => {
                    &&& old(self)@.index.dom().contains(key@)
                    &&& old(self)@.can_append(len)
                    &&& final(self)@ == old(self)@.removed(key@, len)
                    &&& old(self)@.wf() ==> final(self)@.wf()
                },
                Err(e) => {
                    &&& final(self)@ == old(self)@
                    &&& if !old(self)@.index.dom().contains(key@) {
                        e == KvStoreError::RemoveNonExistentKey
                    } else {
                        e == KvStoreError::WrongFileOffset && !old(self)@.can_append(len)
                    }
                },
            },
    {
        if index_get(&self.storage_index, key).is_none() {
            return Err(KvStoreError::RemoveNonExistentKey);
        }
        let _at = self.write_cmd_to_curr_log(len)?;
        let _previous = index_remove(&mut self.storage_index, key);
        Ok(())
    }

    /// The value that the command read at an indexed place holds. A place in
    /// the index that holds anything but a `Put` is corrupt.
    pub fn read_value_from_log_at(cmd: Command) -> (r: Result<String, KvStoreError>)
        ensures
            match cmd@ {
                Op::Put { value, .. } => r matches Ok(v) && v@ == value,
                Op::Remove { .. } => r == Err::<String, KvStoreError>(
                    KvStoreError::WrongFileOffset,
                ),
            },
    {
        match cmd {
            Command::Put { key: _, value } => Ok(value),
            Command::Remove { key: _ } => Err(KvStoreError::WrongFileOffset),
        }
    }
}

} // verus!
