//! Compaction: finding the records that are still live in sealed log files,
//! so that they can be written again to the current log and the files
//! retired.

use crate::error::KvStoreError;
use crate::kvstore::grouping::{
    are_runs_of, by_log_file, grouped_by_log_id, item, lemma_runs_go_up, lemma_unrolled_at,
    lemma_unrolled_covers, sorted_by_log_id, spot_of, spots,
};
use crate::kvstore::index::{index_values, IndexView};
use crate::kvstore::scan::{end_offset, lemma_end_offset_grows, records_fit, LogFile};
use crate::kvstore::{Command, KvStore};
use std::collections::{HashMap, HashSet};
use vstd::prelude::*;

verus! {

broadcast use vstd::std_specs::hash::group_hash_axioms;

/// Whether the index points some key at offset `offset` of log file `id`.
pub open spec fn referenced(index: IndexView, id: u64, offset: u64) -> bool {
    exists|key: Seq<char>| #[trigger]
        index.dom().contains(key) && index[key].log_id == id && index[key].offset == offset
}

/// Whether `active` lists offset `offset` under log file `id`.
pub open spec fn lists(active: Map<u64, HashSet<u64>>, id: u64, offset: u64) -> bool {
    active.dom().contains(id) && active[id]@.contains(offset)
}

/// Whether one of the first `n` of `groups` holds `offset` under the log
/// file `id`.
pub open spec fn in_groups(groups: Seq<(u64, Vec<u64>)>, n: int, id: u64, offset: u64) -> bool {
    exists|h: int, j: int|
        0 <= h < n && 0 <= j < groups[h].1@.len() && #[trigger] item(groups, h, j) == (id, offset)
}

/// Whether record `i` of log file `file` is to be written again: it is a
/// `Put`, and `active` lists its offset under the file's id.
pub open spec fn is_live(active: Map<u64, HashSet<u64>>, file: LogFile, i: int) -> bool {
    &&& 0 <= i < file.records@.len()
    &&& file.records@[i].cmd is Put
    &&& lists(active, file.id, end_offset(file.records@.take(i)) as u64)
}

/// The positions among the first `n` records of `file` of those that are to
/// be written again, in order.
pub open spec fn live_positions(active: Map<u64, HashSet<u64>>, file: LogFile, n: int) -> Seq<
    usize,
>
    decreases n,
{
    if n <= 0 {
        Seq::empty()
    } else if is_live(active, file, n - 1) {
        live_positions(active, file, n - 1).push((n - 1) as usize)
    } else {
        live_positions(active, file, n - 1)
    }
}

/// Those of `ids` that name a sealed log file which was not retired yet, in
/// the order of `ids`.
pub open spec fn candidates(store: crate::kvstore::StoreView, ids: Seq<u64>, n: int) -> Seq<u64>
    decreases n,
{
    if n <= 0 {
        Seq::empty()
    } else if store.is_candidate(ids[n - 1]) {
        candidates(store, ids, n - 1).push(ids[n - 1])
    } else {
        candidates(store, ids, n - 1)
    }
}

impl KvStore {
    /// Collects the offsets that the index points at, under the ids of their
    /// log files: an offset is listed under an id exactly where the index
    /// points some key there. The places of the index are sorted by their log
    /// files and grouped into runs; each run becomes the set of its offsets.
    pub fn get_active_file_id_offsets_map(&self) -> (r: HashMap<u64, HashSet<u64>>)
        ensures
            forall|id: u64, offset: u64| lists(r@, id, offset) <==> referenced(
                self@.index,
                id,
                offset,
            ),
    {
        let values = index_values(&self.storage_index);
        let ghost unsorted = values@;
        let sorted = sorted_by_log_id(values);
        let ghost places = sorted@;
        let groups = grouped_by_log_id(sorted);
        let mut active: HashMap<u64, HashSet<u64>> = HashMap::new();
        let mut g: usize = 0;
        while g < groups.len()
            invariant
                0 <= g <= groups@.len(),
                are_runs_of(groups@, places),
                by_log_file(places),
                forall|id: u64|
                    active@.dom().contains(id) ==> exists|h: int|
                        0 <= h < g && (#[trigger] groups@[h]).0 == id,
                forall|id: u64, offset: u64|
                    lists(active@, id, offset) <==> in_groups(groups@, g as int, id, offset),
            decreases groups@.len() - g,
        {
            let id = groups[g].0;
            let offsets = &groups[g].1;
            let ghost before = active@;
            let mut set: HashSet<u64> = HashSet::new();
            let mut k: usize = 0;
            while k < offsets.len()
                invariant
                    0 <= k <= offsets@.len(),
                    forall|x: u64|
                        set@.contains(x) <==> exists|j: int|
                            0 <= j < k && #[trigger] offsets@[j] == x,
                decreases offsets@.len() - k,
            {
                let ghost had = set@;
                set.insert(offsets[k]);
                assert forall|x: u64|
                    set@.contains(x) <==> exists|j: int|
                        0 <= j < k + 1 && #[trigger] offsets@[j] == x by {
                    if had.contains(x) {
                        let j = choose|j: int| 0 <= j < k && #[trigger] offsets@[j] == x;
                        assert(0 <= j < k + 1 && offsets@[j] == x);
                    }
                    if x == offsets@[k as int] {
                        assert(0 <= k < k + 1 && offsets@[k as int] == x);
                    }
                    if exists|j: int| 0 <= j < k + 1 && #[trigger] offsets@[j] == x {
                        let j = choose|j: int| 0 <= j < k + 1 && #[trigger] offsets@[j] == x;
                        if j < k {
                            assert(had.contains(x));
                        }
                    }
                }
                k = k + 1;
            }
            proof {
                if before.dom().contains(id) {
                    let h = choose|h: int| 0 <= h < g && (#[trigger] groups@[h]).0 == id;
                    lemma_runs_go_up(groups@, places, h, g as int);
                }
            }
            let ghost listed = set@;
            active.insert(id, set);
            assert forall|i: u64| active@.dom().contains(i) implies exists|h: int|
                0 <= h < g + 1 && (#[trigger] groups@[h]).0 == i by {
                if i == id {
                    assert(groups@[g as int].0 == i);
                } else {
                    let h = choose|h: int| 0 <= h < g && (#[trigger] groups@[h]).0 == i;
                    assert(0 <= h < g + 1 && groups@[h].0 == i);
                }
            }
            assert forall|i: u64, offset: u64| lists(active@, i, offset) <==> in_groups(
                groups@,
                g + 1,
                i,
                offset,
            ) by {
                if lists(active@, i, offset) {
                    if i == id {
                        assert(listed.contains(offset));
                        let j = choose|j: int|
                            0 <= j < offsets@.len() && #[trigger] offsets@[j] == offset;
                        assert(item(groups@, g as int, j) == (i, offset));
                    } else {
                        assert(lists(before, i, offset));
                        let (h, j) = choose|h: int, j: int|
                            0 <= h < g && 0 <= j < groups@[h].1@.len() && #[trigger] item(
                                groups@,
                                h,
                                j,
                            ) == (i, offset);
                        assert(0 <= h < g + 1);
                    }
                }
                if in_groups(groups@, g + 1, i, offset) {
                    let (h, j) = choose|h: int, j: int|
                        0 <= h < g + 1 && 0 <= j < groups@[h].1@.len() && #[trigger] item(
                            groups@,
                            h,
                            j,
                        ) == (i, offset);
                    if h < g {
                        assert(in_groups(groups@, g as int, i, offset));
                        assert(lists(before, i, offset));
                        assert(i != id);
                    } else {
                        assert(offsets@[j] == offset);
                        assert(listed.contains(offset));
                    }
                }
            }
            g = g + 1;
        }
        proof {
            let index = self@.index;
            unsorted.to_multiset_ensures();
            places.to_multiset_ensures();
            assert forall|id: u64, offset: u64| lists(active@, id, offset) <==> referenced(
                index,
                id,
                offset,
            ) by {
                if lists(active@, id, offset) {
                    let (h, j) = choose|h: int, j: int|
                        0 <= h < groups@.len() && 0 <= j < groups@[h].1@.len() && #[trigger] item(
                            groups@,
                            h,
                            j,
                        ) == (id, offset);
                    lemma_unrolled_at(groups@, h, j);
                    let i = spot_of(groups@, h, j);
                    assert(spots(places)[i] == (id, offset));
                    let place = places[i];
                    assert(places.contains(place));
                    assert(unsorted.to_multiset().count(place) > 0);
                    assert(unsorted.contains(place));
                    assert(unsorted.to_set().contains(place));
                    assert(index.values().contains(place));
                    assert(index.contains_value(place));
                }
                if referenced(index, id, offset) {
                    let key = choose|key: Seq<char>| #[trigger]
                        index.dom().contains(key) && index[key].log_id == id && index[key].offset
                            == offset;
                    let place = index[key];
                    assert(index.contains_value(place));
                    assert(index.values().contains(place));
                    assert(unsorted.to_set().contains(place));
                    assert(unsorted.contains(place));
                    assert(places.to_multiset().count(place) > 0);
                    assert(places.contains(place));
                    let i = choose|i: int| 0 <= i < places.len() && places[i] == place;
                    assert(spots(places)[i] == (id, offset));
                    lemma_unrolled_covers(groups@, i);
                    let (h, j) = choose|h: int, j: int|
                        0 <= h < groups@.len() && 0 <= j < groups@[h].1@.len() && #[trigger] spot_of(
                            groups@,
                            h,
                            j,
                        ) == i;
                    lemma_unrolled_at(groups@, h, j);
                    assert(item(groups@, h, j) == (id, offset));
                }
            }
        }
        active
    }

    /// Picks from `ids` the sealed log files that compaction has yet to
    /// treat. Their order is that of `ids`.
    pub fn select_logs(&self, ids: &Vec<u64>) -> (r: Vec<u64>)
        ensures
            r@ == candidates(self@, ids@, ids@.len() as int),
    {
        let mut selected: Vec<u64> = Vec::new();
        let mut i: usize = 0;
        while i < ids.len()
            invariant
                0 <= i <= ids@.len(),
                selected@ == candidates(self@, ids@, i as int),
            decreases ids@.len() - i,
        {
            let id = ids[i];
            if holds(&self.sealed, id) {
                selected.push(id);
            }
            i = i + 1;
        }
        selected
    }

    /// Finds in a sealed log file the records that must be written again to
    /// the current log: the `Put` records whose offsets `active` lists under
    /// the file's id. Gives their positions in the file, in order. Fails with
    /// `WrongFileOffset` where the records do not fit.
    pub fn live_commands(active: &HashMap<u64, HashSet<u64>>, file: &LogFile) -> (r: Result<
        Vec<usize>,
        KvStoreError,
    >)
        ensures
            match r {
                Ok(positions) => {
                    &&& records_fit(file.records@)
                    &&& positions@ == live_positions(active@, *file, file.records@.len() as int)
                },
                Err(e) => e == KvStoreError::WrongFileOffset && !records_fit(file.records@),
            },
    {
        let active_offsets = active.get(&file.id);
        let mut positions: Vec<usize> = Vec::new();
        let mut offset: u64 = 0;
        let mut i: usize = 0;
        while i < file.records.len()
            invariant
                0 <= i <= file.records@.len(),
                offset == end_offset(file.records@.take(i as int)),
                forall|k: int| 0 <= k < i ==> (#[trigger] file.records@[k]).len > 0,
                positions@ == live_positions(active@, *file, i as int),
                match active_offsets {
                    Some(s) => active@.dom().contains(file.id) && active@[file.id] == *s,
                    None => !active@.dom().contains(file.id),
                },
            decreases file.records@.len() - i,
        {
            let record = &file.records[i];
            proof {
                assert(file.records@.take(i + 1).drop_last() =~= file.records@.take(i as int));
                lemma_end_offset_grows(file.records@, i + 1);
            }
            if record.len == 0 {
                return Err(KvStoreError::WrongFileOffset);
            }
            let end = match offset.checked_add(record.len) {
                Some(end) => end,
                None => {
                    return Err(KvStoreError::WrongFileOffset);
                },
            };
            let is_active_entry = match active_offsets {
                Some(s) => s.contains(&offset),
                None => false,
            };
            let is_put = match &record.cmd {
                Command::Put { .. } => true,
                Command::Remove { .. } => false,
            };
            if is_put && is_active_entry {
                positions.push(i);
            }
            offset = end;
            i = i + 1;
        }
        proof {
            assert(file.records@.take(i as int) =~= file.records@);
        }
        Ok(positions)
    }

    /// Records that the sealed log file `log_id`, which held `cmd_count`
    /// commands, was treated and can be deleted: its commands leave the
    /// total and it becomes the file retired last. The oldest sealed file
    /// goes first: while an older file is there, its records may be all that
    /// a removal in a younger file hides. Changes nothing where it fails:
    /// with `WrongFileNameFormat` where `log_id` is not the oldest sealed
    /// file, and else with `WrongFileOffset` where the sealed files do not
    /// hold `cmd_count` commands.
    pub fn retire_log(&mut self, log_id: u64, cmd_count: u64) -> (r: Result<(), KvStoreError>)
        ensures
            old(self)@.wf() ==> final(self)@.wf(),
            match r {
                Ok(()) => {
                    &&& old(self)@.oldest_sealed() == Some(log_id)
                    &&& cmd_count <= old(self)@.total_cmd_counter - old(self)@.cmd_counter
                    &&& final(self)@ == old(self)@.retired(log_id, cmd_count)
                },
                Err(e) => {
                    &&& final(self)@ == old(self)@
                    &&& if old(self)@.oldest_sealed() != Some(log_id) {
                        e == KvStoreError::WrongFileNameFormat
                    } else {
                        e == KvStoreError::WrongFileOffset && cmd_count > old(
                            self,
                        )@.total_cmd_counter - old(self)@.cmd_counter
                    }
                },
            },
    {
        if self.sealed.len() == 0 || self.sealed[0] != log_id {
            return Err(KvStoreError::WrongFileNameFormat);
        }
        let total = self.writer_ctrl.total_cmd_counter();
        let sealed = match total.checked_sub(self.writer_ctrl.curr_log.cmd_counter()) {
            Some(sealed) => sealed,
            None => {
                return Err(KvStoreError::WrongFileOffset);
            },
        };
        if cmd_count > sealed {
            return Err(KvStoreError::WrongFileOffset);
        }
        let ghost before = self.sealed@;
        self.writer_ctrl.sub_total_cmd_counter(cmd_count);
        let _retired = self.sealed.remove(0);
        self.last_collected_file_index = Some(log_id);
        proof {
            assert(self.sealed@ =~= before.drop_first());
            assert forall|i: int| 0 <= i < self.sealed@.len() implies self.sealed@[i]
                == before[i + 1] by {}
        }
        Ok(())
    }
}

/// Whether `id` is among `ids`.
fn holds(ids: &Vec<u64>, id: u64) -> (r: bool)
    ensures
        r == ids@.contains(id),
{
    let mut i: usize = 0;
    while i < ids.len()
        invariant
            0 <= i <= ids@.len(),
            forall|k: int| 0 <= k < i ==> ids@[k] != id,
        decreases ids@.len() - i,
    {
        if ids[i] == id {
            return true;
        }
        i = i + 1;
    }
    false
}

} // verus!
