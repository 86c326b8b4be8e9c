use kvs::error::KvStoreError;
use kvs::kvstore::index::CommandIndex;
use kvs::kvstore::scan::{LogFile, LogRecord, ReadOutcome};
use kvs::kvstore::{
    Command, KvStore, LogFileWriter, WriterControlData, CMDS_THRESHOLD,
    CURR_FILE_OFFSET_THRESHOLD,
};

/// The log files of a data directory, kept in memory.
struct Disk {
    files: Vec<LogFile>,
}

/// The number of bytes that a record of `cmd` takes: a tag of four bytes,
/// and for each string eight bytes of length and its bytes.
fn record_len(cmd: &Command) -> u64 {
    match cmd {
        Command::Put { key, value } => 4 + 8 + key.len() as u64 + 8 + value.len() as u64,
        Command::Remove { key } => 4 + 8 + key.len() as u64,
    }
}

impl Disk {
    fn new() -> Disk {
        Disk { files: Vec::new() }
    }

    fn create(&mut self, id: u64) {
        if !self.files.iter().any(|f| f.id == id) {
            self.files.push(LogFile { id, records: Vec::new() });
            self.files.sort_by_key(|f| f.id);
        }
    }

    fn append(&mut self, id: u64, cmd: Command) -> u64 {
        let len = record_len(&cmd);
        let file = self.files.iter_mut().find(|f| f.id == id).expect("the log file is there");
        file.records.push(LogRecord { cmd, len });
        len
    }

    fn read(&self, at: CommandIndex) -> Command {
        let file = self.files.iter().find(|f| f.id == at.log_id).expect("the log file is there");
        let mut offset = 0;
        for record in &file.records {
            if offset == at.offset {
                assert_eq!(record.len, at.len);
                return record.cmd.clone();
            }
            offset += record.len;
        }
        panic!("no record starts at offset {}", at.offset);
    }

    fn remove(&mut self, id: u64) {
        self.files.retain(|f| f.id != id);
    }

    fn size(&self) -> u64 {
        self.files.iter().flat_map(|f| f.records.iter()).map(|r| r.len).sum()
    }

    fn ids(&self) -> Vec<u64> {
        self.files.iter().map(|f| f.id).collect()
    }
}

/// An engine made of the bookkeeping and a disk in memory.
struct Engine {
    store: KvStore,
    disk: Disk,
}

impl Engine {
    fn open(mut disk: Disk) -> Engine {
        let store = KvStore::open(&disk.files).expect("the store opens");
        disk.create(store.log_id());
        Engine { store, disk }
    }

    fn reopen(self) -> Engine {
        Engine::open(self.disk)
    }

    fn roll_over_if_due(&mut self) {
        if self.store.should_create_new_file() {
            let id = self.store.do_create_new_file().expect("there is a further id");
            self.disk.create(id);
        }
    }

    fn set(&mut self, key: &str, value: &str) -> Result<(), KvStoreError> {
        let cmd = Command::Put { key: key.to_owned(), value: value.to_owned() };
        let len = self.disk.append(self.store.log_id(), cmd);
        self.store.insert_entry(key.to_owned(), len)?;
        self.roll_over_if_due();
        Ok(())
    }

    fn get(&self, key: &str) -> Result<Option<String>, KvStoreError> {
        match self.store.locate(key) {
            None => Ok(None),
            Some(at) => KvStore::read_value_from_log_at(self.disk.read(at)).map(Some),
        }
    }

    fn remove(&mut self, key: &str) -> Result<(), KvStoreError> {
        if self.store.locate(key).is_none() {
            return Err(KvStoreError::RemoveNonExistentKey);
        }
        let cmd = Command::Remove { key: key.to_owned() };
        let len = self.disk.append(self.store.log_id(), cmd);
        self.store.remove_entry(key, len)?;
        self.roll_over_if_due();
        Ok(())
    }

    fn compact(&mut self) -> Result<(), KvStoreError> {
        self.roll_over_if_due();
        if !self.store.should_run_compaction() {
            return Ok(());
        }
        self.compact_now()
    }

    fn compact_now(&mut self) -> Result<(), KvStoreError> {
        let active = self.store.get_active_file_id_offsets_map();
        for id in self.store.select_logs(&self.disk.ids()) {
            let file = self.disk.files.iter().find(|f| f.id == id).unwrap().clone();
            for position in KvStore::live_commands(&active, &file)? {
                match &file.records[position].cmd {
                    Command::Put { key, value } => {
                        let cmd = Command::Put { key: key.clone(), value: value.clone() };
                        let len = self.disk.append(self.store.log_id(), cmd);
                        self.store.insert_entry(key.clone(), len)?;
                    }
                    Command::Remove { .. } => panic!("a removal is never live"),
                }
            }
            self.store.retire_log(id, file.records.len() as u64)?;
            self.disk.remove(id);
        }
        Ok(())
    }
}

fn put(key: &str, value: &str) -> LogRecord {
    let cmd = Command::Put { key: key.to_owned(), value: value.to_owned() };
    let len = record_len(&cmd);
    LogRecord { cmd, len }
}

fn rm(key: &str) -> LogRecord {
    let cmd = Command::Remove { key: key.to_owned() };
    let len = record_len(&cmd);
    LogRecord { cmd, len }
}

#[test]
fn a_set_is_seen_by_the_next_get() {
    let mut engine = Engine::open(Disk::new());
    engine.set("key", "value").unwrap();
    assert_eq!(engine.get("key").unwrap(), Some("value".to_owned()));
}

#[test]
fn the_later_of_two_sets_wins() {
    let mut engine = Engine::open(Disk::new());
    engine.set("k", "v1").unwrap();
    engine.set("k", "v2").unwrap();
    assert_eq!(engine.get("k").unwrap(), Some("v2".to_owned()));
}

#[test]
fn an_absent_key_gives_nothing() {
    let engine = Engine::open(Disk::new());
    assert_eq!(engine.get("absent").unwrap(), None);
}

#[test]
fn a_removed_key_is_gone_and_cannot_be_removed_again() {
    let mut engine = Engine::open(Disk::new());
    engine.set("k", "v").unwrap();
    engine.remove("k").unwrap();
    assert_eq!(engine.get("k").unwrap(), None);
    assert_eq!(engine.remove("k"), Err(KvStoreError::RemoveNonExistentKey));
    assert_eq!(engine.store.remove_entry("k", 13), Err(KvStoreError::RemoveNonExistentKey));
}

#[test]
fn entries_lie_where_the_writer_stood() {
    let mut store = KvStore::open(&Vec::new()).unwrap();
    assert_eq!((store.log_id(), store.offset(), store.cmd_counter()), (0, 0, 0));
    assert_eq!(store.total_cmd_counter(), 0);
    assert_eq!(store.last_collected(), None);
    assert_eq!(store.len(), 0);
    store.insert_entry("a".to_owned(), 22).unwrap();
    store.insert_entry("b".to_owned(), 30).unwrap();
    store.insert_entry("a".to_owned(), 25).unwrap();
    assert_eq!(store.locate("a"), Some(CommandIndex { log_id: 0, offset: 52, len: 25 }));
    assert_eq!(store.locate("b"), Some(CommandIndex { log_id: 0, offset: 22, len: 30 }));
    assert_eq!(store.locate("c"), None);
    assert_eq!((store.offset(), store.cmd_counter(), store.total_cmd_counter()), (77, 3, 3));
    assert_eq!(store.len(), 2);
    store.remove_entry("b", 13).unwrap();
    assert_eq!(store.locate("b"), None);
    assert_eq!((store.offset(), store.cmd_counter(), store.total_cmd_counter()), (90, 4, 4));
    assert_eq!(store.len(), 1);
}

#[test]
fn a_record_that_cannot_be_appended_changes_nothing() {
    let mut store = KvStore::open(&Vec::new()).unwrap();
    store.insert_entry("a".to_owned(), 22).unwrap();
    assert_eq!(store.insert_entry("b".to_owned(), 0), Err(KvStoreError::WrongFileOffset));
    assert_eq!(
        store.insert_entry("b".to_owned(), u64::MAX - 21),
        Err(KvStoreError::WrongFileOffset)
    );
    assert_eq!(store.remove_entry("a", 0), Err(KvStoreError::WrongFileOffset));
    assert_eq!(store.locate("b"), None);
    assert_eq!(store.locate("a"), Some(CommandIndex { log_id: 0, offset: 0, len: 22 }));
    assert_eq!((store.offset(), store.cmd_counter(), store.total_cmd_counter()), (22, 1, 1));
    store.insert_entry("b".to_owned(), u64::MAX - 22).unwrap();
    assert_eq!(store.offset(), u64::MAX);
}

#[test]
fn what_is_read_at_an_indexed_place_must_be_a_put() {
    assert_eq!(
        KvStore::read_value_from_log_at(Command::Put {
            key: "k".to_owned(),
            value: "v".to_owned()
        }),
        Ok("v".to_owned())
    );
    assert_eq!(
        KvStore::read_value_from_log_at(Command::Remove { key: "k".to_owned() }),
        Err(KvStoreError::WrongFileOffset)
    );
}

#[test]
fn reopening_gives_the_values_that_were_set_last() {
    let mut engine = Engine::open(Disk::new());
    engine.set("a", "1").unwrap();
    engine.set("b", "2").unwrap();
    engine.set("a", "3").unwrap();
    engine.remove("b").unwrap();
    engine.set("c", "4").unwrap();
    engine.set("d", "5").unwrap();
    engine.remove("d").unwrap();
    engine.set("d", "6").unwrap();
    let total = engine.store.total_cmd_counter();
    let offset = engine.store.offset();
    let engine = engine.reopen();
    assert_eq!(engine.get("a").unwrap(), Some("3".to_owned()));
    assert_eq!(engine.get("b").unwrap(), None);
    assert_eq!(engine.get("c").unwrap(), Some("4".to_owned()));
    assert_eq!(engine.get("d").unwrap(), Some("6".to_owned()));
    assert_eq!(engine.get("e").unwrap(), None);
    assert_eq!(engine.store.len(), 3);
    assert_eq!(engine.store.total_cmd_counter(), total);
    assert_eq!(engine.store.offset(), offset);
}

#[test]
fn opening_replays_every_file_in_order() {
    let files = vec![
        LogFile { id: 3, records: vec![put("a", "old"), put("b", "x"), rm("b")] },
        LogFile { id: 4, records: vec![put("a", "new"), put("c", "y")] },
    ];
    let store = KvStore::open(&files).unwrap();
    assert_eq!(store.log_id(), 4);
    assert_eq!(store.cmd_counter(), 2);
    assert_eq!(store.total_cmd_counter(), 5);
    assert_eq!(store.offset(), 24 + 22);
    assert_eq!(store.last_collected(), None);
    assert_eq!(store.oldest_sealed(), Some(3));
    assert_eq!(store.select_logs(&vec![3, 4]), vec![3]);
    assert_eq!(store.len(), 2);
    assert_eq!(store.locate("a"), Some(CommandIndex { log_id: 4, offset: 0, len: 24 }));
    assert_eq!(store.locate("c"), Some(CommandIndex { log_id: 4, offset: 24, len: 22 }));
    assert_eq!(store.locate("b"), None);
}

#[test]
fn the_writer_stands_behind_the_last_complete_record() {
    // The last file ends in a partial record, which the scan leaves out: the
    // append cursor is where that record begins.
    let files = vec![LogFile { id: 0, records: vec![put("key", "value"), put("k", "v")] }];
    let mut store = KvStore::open(&files).unwrap();
    assert_eq!(store.offset(), 28 + 22);
    assert_eq!(store.cmd_counter(), 2);
    store.insert_entry("next".to_owned(), 30).unwrap();
    assert_eq!(store.locate("next"), Some(CommandIndex { log_id: 0, offset: 50, len: 30 }));
    assert_eq!(store.locate("key"), Some(CommandIndex { log_id: 0, offset: 0, len: 28 }));
}

#[test]
fn opening_rejects_files_out_of_order() {
    let files = vec![
        LogFile { id: 2, records: vec![put("a", "1")] },
        LogFile { id: 1, records: vec![put("a", "2")] },
    ];
    assert_eq!(KvStore::open(&files).err(), Some(KvStoreError::WrongFileNameFormat));
    let files = vec![LogFile { id: 1, records: vec![] }, LogFile { id: 1, records: vec![] }];
    assert_eq!(KvStore::open(&files).err(), Some(KvStoreError::WrongFileNameFormat));
}

#[test]
fn opening_rejects_records_that_do_not_fit() {
    let empty = LogRecord { cmd: Command::Remove { key: "a".to_owned() }, len: 0 };
    let files = vec![LogFile { id: 0, records: vec![put("a", "1"), empty] }];
    assert_eq!(KvStore::open(&files).err(), Some(KvStoreError::WrongFileOffset));
    let huge = LogRecord {
        cmd: Command::Put { key: "a".to_owned(), value: "1".to_owned() },
        len: u64::MAX,
    };
    let files = vec![LogFile { id: 0, records: vec![put("a", "1"), huge] }];
    assert_eq!(KvStore::open(&files).err(), Some(KvStoreError::WrongFileOffset));
}

#[test]
fn enough_writes_make_a_new_file_due() {
    let mut store = KvStore::open(&Vec::new()).unwrap();
    for i in 0..(CMDS_THRESHOLD / 2) {
        store.insert_entry(format!("key{}", i), 20).unwrap();
        assert!(!store.should_create_new_file());
    }
    store.insert_entry("one more".to_owned(), 20).unwrap();
    assert!(store.should_create_new_file());
    assert_eq!(store.next_log_id(), Some(1));
    assert_eq!(store.do_create_new_file(), Ok(1));
    assert_eq!((store.log_id(), store.offset(), store.cmd_counter()), (1, 0, 0));
    assert_eq!(store.total_cmd_counter(), CMDS_THRESHOLD / 2 + 1);
    assert!(!store.should_create_new_file());
    store.insert_entry("fresh".to_owned(), 20).unwrap();
    assert_eq!(store.locate("fresh"), Some(CommandIndex { log_id: 1, offset: 0, len: 20 }));
    assert_eq!(store.locate("key7"), Some(CommandIndex { log_id: 0, offset: 140, len: 20 }));
}

#[test]
fn a_large_file_makes_a_new_file_due() {
    let mut store = KvStore::open(&Vec::new()).unwrap();
    store.insert_entry("big".to_owned(), CURR_FILE_OFFSET_THRESHOLD).unwrap();
    assert!(!store.should_create_new_file());
    store.insert_entry("small".to_owned(), 1).unwrap();
    assert!(store.should_create_new_file());
}

#[test]
fn a_sealed_file_no_longer_grows() {
    let mut engine = Engine::open(Disk::new());
    for i in 0..(CMDS_THRESHOLD / 2 + 1) {
        engine.set(&format!("key{}", i), "v").unwrap();
    }
    assert_eq!(engine.store.log_id(), 1);
    let sealed = engine.disk.files[0].clone();
    for i in 0..100 {
        engine.set(&format!("more{}", i), "v").unwrap();
    }
    assert_eq!(engine.disk.files[0], sealed);
    assert_eq!(engine.disk.files[1].records.len(), 100);
}

#[test]
fn there_is_no_file_behind_the_last_id() {
    let files = vec![LogFile { id: u64::MAX, records: vec![put("a", "1")] }];
    let mut store = KvStore::open(&files).unwrap();
    assert_eq!(store.next_log_id(), None);
    assert_eq!(store.do_create_new_file(), Err(KvStoreError::WrongFileNameFormat));
    assert_eq!(store.log_id(), u64::MAX);
    assert_eq!(store.offset(), 22);
}

#[test]
fn compaction_is_due_beyond_one_and_a_half_commands_a_key() {
    let mut records = Vec::new();
    for i in 0..6667 {
        records.push(put(&format!("key{}", i), "v"));
    }
    for i in 0..3333 {
        records.push(put(&format!("key{}", i), "w"));
    }
    // 10000 commands: not more than the threshold.
    let store = KvStore::open(&vec![LogFile { id: 0, records: records.clone() }]).unwrap();
    assert_eq!((store.total_cmd_counter(), store.len()), (10000, 6667));
    assert!(!store.should_run_compaction());
    // 10001 commands on 6667 keys: 20002 > 20001.
    records.push(put("key0", "x"));
    let store = KvStore::open(&vec![LogFile { id: 0, records: records.clone() }]).unwrap();
    assert_eq!((store.total_cmd_counter(), store.len()), (10001, 6667));
    assert!(store.should_run_compaction());
    // 10002 commands on 6668 keys: 20004 = 20004.
    records.push(put("another", "x"));
    let store = KvStore::open(&vec![LogFile { id: 0, records }]).unwrap();
    assert_eq!((store.total_cmd_counter(), store.len()), (10002, 6668));
    assert!(!store.should_run_compaction());
}

#[test]
fn the_active_offsets_are_those_of_the_index() {
    let files = vec![
        LogFile { id: 0, records: vec![put("a", "1"), put("b", "2"), put("a", "3"), rm("b")] },
        LogFile { id: 1, records: vec![put("c", "4"), put("d", "5")] },
    ];
    let store = KvStore::open(&files).unwrap();
    let active = store.get_active_file_id_offsets_map();
    assert_eq!(active.len(), 2);
    assert_eq!(active[&0].iter().copied().collect::<Vec<u64>>(), vec![44]);
    let mut in_one: Vec<u64> = active[&1].iter().copied().collect();
    in_one.sort();
    assert_eq!(in_one, vec![0, 22]);
}

#[test]
fn every_sealed_file_is_selected_until_it_is_retired() {
    let files = vec![
        LogFile { id: 0, records: vec![put("a", "1")] },
        LogFile { id: 1, records: vec![] },
        LogFile { id: 2, records: vec![put("a", "2")] },
    ];
    let mut store = KvStore::open(&files).unwrap();
    assert_eq!(store.last_collected(), None);
    assert_eq!(store.oldest_sealed(), Some(0));
    assert_eq!(store.select_logs(&vec![0, 1, 2]), vec![0, 1]);
    store.do_create_new_file().unwrap();
    store.do_create_new_file().unwrap();
    assert_eq!(store.log_id(), 4);
    assert_eq!(store.select_logs(&vec![0, 1, 2, 3, 4, 5]), vec![0, 1, 2, 3]);
    store.retire_log(0, 1).unwrap();
    assert_eq!(store.last_collected(), Some(0));
    assert_eq!(store.oldest_sealed(), Some(1));
    assert_eq!(store.total_cmd_counter(), 1);
    assert_eq!(store.select_logs(&vec![0, 1, 2, 3, 4, 5]), vec![1, 2, 3]);
}

#[test]
fn the_oldest_sealed_file_goes_first() {
    let files = vec![
        LogFile { id: 0, records: vec![put("k", "v")] },
        LogFile { id: 1, records: vec![put("other", "x")] },
        LogFile { id: 2, records: vec![rm("k")] },
    ];
    let mut store = KvStore::open(&files).unwrap();
    store.do_create_new_file().unwrap();
    assert_eq!(store.retire_log(2, 1), Err(KvStoreError::WrongFileNameFormat));
    assert_eq!(store.retire_log(1, 1), Err(KvStoreError::WrongFileNameFormat));
    assert_eq!(store.oldest_sealed(), Some(0));
    assert_eq!(store.last_collected(), None);
    assert_eq!(store.retire_log(0, 1), Ok(()));
    assert_eq!(store.retire_log(2, 1), Err(KvStoreError::WrongFileNameFormat));
    assert_eq!(store.retire_log(1, 1), Ok(()));
    assert_eq!(store.retire_log(2, 1), Ok(()));
    assert_eq!(store.oldest_sealed(), None);
    assert_eq!(store.last_collected(), Some(2));
    assert_eq!(store.retire_log(3, 0), Err(KvStoreError::WrongFileNameFormat));
}

#[test]
fn a_removed_key_stays_gone_after_compaction_and_reopening() {
    let mut disk = Disk::new();
    disk.files = vec![
        LogFile { id: 0, records: vec![put("k", "v"), put("stays", "1")] },
        LogFile { id: 1, records: vec![put("other", "x")] },
        LogFile { id: 2, records: vec![put("stays", "2")] },
    ];
    let mut engine = Engine::open(disk);
    assert_eq!(engine.get("k").unwrap(), Some("v".to_owned()));
    engine.remove("k").unwrap();
    let id = engine.store.do_create_new_file().unwrap();
    engine.disk.create(id);
    engine.compact_now().unwrap();
    assert_eq!(engine.disk.ids(), vec![3]);
    assert_eq!(engine.get("k").unwrap(), None);
    let engine = engine.reopen();
    assert_eq!(engine.get("k").unwrap(), None);
    assert_eq!(engine.get("stays").unwrap(), Some("2".to_owned()));
    assert_eq!(engine.get("other").unwrap(), Some("x".to_owned()));
    assert_eq!(engine.store.len(), 2);
}

#[test]
fn only_live_puts_are_written_again() {
    let files = vec![
        LogFile {
            id: 0,
            records: vec![put("a", "1"), put("b", "2"), put("a", "3"), rm("b"), put("c", "4")],
        },
        LogFile { id: 1, records: vec![put("c", "5")] },
    ];
    let store = KvStore::open(&files).unwrap();
    let active = store.get_active_file_id_offsets_map();
    assert_eq!(KvStore::live_commands(&active, &files[0]), Ok(vec![2]));
    assert_eq!(KvStore::live_commands(&active, &files[1]), Ok(vec![0]));
    let broken = LogFile { id: 0, records: vec![LogRecord { cmd: files[0].records[0].cmd.clone(), len: 0 }] };
    assert_eq!(KvStore::live_commands(&active, &broken), Err(KvStoreError::WrongFileOffset));
}

#[test]
fn retiring_needs_a_sealed_file_and_its_commands() {
    let files = vec![LogFile { id: 0, records: vec![put("a", "1"), put("a", "2")] }];
    let mut store = KvStore::open(&files).unwrap();
    assert_eq!(store.retire_log(0, 2), Err(KvStoreError::WrongFileNameFormat));
    store.do_create_new_file().unwrap();
    store.insert_entry("b".to_owned(), 22).unwrap();
    assert_eq!(store.retire_log(1, 1), Err(KvStoreError::WrongFileNameFormat));
    assert_eq!(store.retire_log(0, 3), Err(KvStoreError::WrongFileOffset));
    assert_eq!(store.total_cmd_counter(), 3);
    assert_eq!(store.last_collected(), None);
    assert_eq!(store.retire_log(0, 2), Ok(()));
    assert_eq!(store.total_cmd_counter(), 1);
    assert_eq!(store.last_collected(), Some(0));
    assert_eq!(store.retire_log(0, 0), Err(KvStoreError::WrongFileNameFormat));
}

#[test]
fn compaction_keeps_every_value_and_frees_room() {
    let mut engine = Engine::open(Disk::new());
    for round in 0..3 {
        for i in 0..4000 {
            engine.set(&format!("key{}", i), &format!("{}", round)).unwrap();
        }
    }
    engine.remove("key17").unwrap();
    let before = engine.disk.size();
    assert!(engine.store.should_run_compaction());
    engine.compact().unwrap();
    assert!(engine.disk.size() < before);
    assert_eq!(engine.disk.ids(), vec![2]);
    assert_eq!(engine.store.last_collected(), Some(1));
    for i in 0..4000 {
        let expected = if i == 17 { None } else { Some("2".to_owned()) };
        assert_eq!(engine.get(&format!("key{}", i)).unwrap(), expected);
    }
    let engine = engine.reopen();
    for i in 0..4000 {
        let expected = if i == 17 { None } else { Some("2".to_owned()) };
        assert_eq!(engine.get(&format!("key{}", i)).unwrap(), expected);
    }
}

#[test]
fn compaction_with_nothing_to_do_changes_nothing() {
    let mut engine = Engine::open(Disk::new());
    engine.set("a", "1").unwrap();
    let size = engine.disk.size();
    engine.compact().unwrap();
    engine.compact_now().unwrap();
    assert_eq!(engine.disk.size(), size);
    assert_eq!(engine.get("a").unwrap(), Some("1".to_owned()));
    assert_eq!(engine.store.last_collected(), None);
}

#[test]
fn compaction_converges() {
    let mut engine = Engine::open(Disk::new());
    for i in 0..1000 {
        engine.set(&format!("key{}", i), "first").unwrap();
    }
    let mut current_size = engine.disk.size();
    let mut last_iter = 0;
    for iter in 0..1000 {
        last_iter = iter;
        for i in 0..1000 {
            engine.set(&format!("key{}", i), &format!("{}", iter)).unwrap();
        }
        engine.compact().unwrap();
        let new_size = engine.disk.size();
        if new_size > current_size {
            current_size = new_size;
        } else {
            break;
        }
    }
    assert!(last_iter < 999);
    let engine = engine.reopen();
    for i in 0..1000 {
        assert_eq!(engine.get(&format!("key{}", i)).unwrap(), Some(format!("{}", last_iter)));
    }
}

#[test]
fn the_writer_counts_what_it_appends() {
    let mut writer = LogFileWriter::open(3, 2, 40);
    assert_eq!((writer.id(), writer.cmd_counter(), writer.offset()), (3, 2, 40));
    assert_eq!(writer.append_cmd(10), Ok(CommandIndex { log_id: 3, offset: 40, len: 10 }));
    assert_eq!((writer.id(), writer.cmd_counter(), writer.offset()), (3, 3, 50));
    assert_eq!(writer.append_cmd(0), Err(KvStoreError::WrongFileOffset));
    assert_eq!(writer.append_cmd(u64::MAX), Err(KvStoreError::WrongFileOffset));
    assert_eq!((writer.id(), writer.cmd_counter(), writer.offset()), (3, 3, 50));
    writer.open_another(4);
    assert_eq!((writer.id(), writer.cmd_counter(), writer.offset()), (4, 0, 0));
    let mut ctrl = WriterControlData::new(writer, 7);
    assert_eq!(ctrl.total_cmd_counter(), 7);
    ctrl.inc_total_cmd_counter();
    assert_eq!(ctrl.total_cmd_counter(), 8);
    ctrl.sub_total_cmd_counter(5);
    assert_eq!(ctrl.total_cmd_counter(), 3);
    ctrl.curr_log_mut().append_cmd(9).unwrap();
    assert_eq!(ctrl.curr_log_mut().offset(), 9);
}

#[test]
fn log_files_are_named_by_their_ids() {
    assert_eq!(KvStore::format_log_name(0), "db000000000000.log");
    assert_eq!(KvStore::format_log_name(3), "db000000000003.log");
    assert_eq!(KvStore::format_log_name(999_999_999_999), "db999999999999.log");
    assert_eq!(KvStore::format_log_name(1_000_000_000_000), "db1000000000000.log");
    assert_eq!(KvStore::format_log_name(u64::MAX), "db18446744073709551615.log");
}

#[test]
fn names_are_read_back_as_ids() {
    for id in [0, 1, 9, 10, 4999, 999_999_999_999, 1_000_000_000_000, u64::MAX] {
        assert_eq!(KvStore::parse_log_name(&KvStore::format_log_name(id)), Some(id));
    }
    assert_eq!(KvStore::parse_log_name("db000000000012.log"), Some(12));
}

#[test]
fn other_names_are_no_log_files() {
    for name in [
        "",
        "db.log",
        "db12.log",
        "db00000000012.log",
        "db0000000000012.log",
        "db18446744073709551616.log",
        "db99999999999999999999999.log",
        "da000000000012.log",
        "db000000000012.lag",
        "db000000000012.log.bak",
        "xdb000000000012.log",
        "db00000000001a.log",
        "db+00000000012.log",
        "db0000\u{fc}0000012.log",
        ".kvs-server-conf.json",
    ] {
        assert_eq!(KvStore::parse_log_name(name), None, "{}", name);
    }
}

#[test]
fn log_ids_are_listed_in_ascending_order() {
    let names: Vec<String> = [
        "db000000000010.log",
        "notes.txt",
        "db000000000002.log",
        "db1000000000000.log",
        "db000000000007.log",
        "db7.log",
    ]
    .iter()
    .map(|s| s.to_string())
    .collect();
    assert_eq!(KvStore::list_log_ids_sorted(&names), vec![2, 7, 10, 1_000_000_000_000]);
    assert_eq!(KvStore::list_log_ids_sorted(&Vec::new()), Vec::<u64>::new());
}

#[test]
fn a_scan_ends_at_the_end_of_the_file_and_fails_on_corruption() {
    let mut file = LogFile::new(7);
    assert_eq!(file, LogFile { id: 7, records: vec![] });
    assert_eq!(file.take_in(ReadOutcome::Record(put("a", "1"))), Ok(true));
    assert_eq!(file.take_in(ReadOutcome::Record(rm("a"))), Ok(true));
    assert_eq!(file.take_in(ReadOutcome::EndOfFile), Ok(false));
    assert_eq!(file, LogFile { id: 7, records: vec![put("a", "1"), rm("a")] });
    assert_eq!(
        file.take_in(ReadOutcome::Corrupt("invalid tag".to_owned())),
        Err(KvStoreError::Bincode("invalid tag".to_owned()))
    );
    assert_eq!(file.records.len(), 2);
}
