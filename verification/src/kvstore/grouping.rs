//! Grouping the places to which the index points by their log files.

use crate::kvstore::index::CommandIndex;
use itertools::Itertools;
use vstd::prelude::*;

verus! {

/// Whether `places` lie in ascending order of their log files.
pub open spec fn by_log_file(places: Seq<CommandIndex>) -> bool {
    forall|i: int, j: int| 0 <= i < j < places.len() ==> places[i].log_id <= places[j].log_id
}

/// The log file and the offset of each place, in order.
pub open spec fn spots(places: Seq<CommandIndex>) -> Seq<(u64, u64)> {
    Seq::new(places.len(), |i: int| (places[i].log_id, places[i].offset))
}

/// Offset `k` of group `g`, with the log file of the group.
pub open spec fn item(groups: Seq<(u64, Vec<u64>)>, g: int, k: int) -> (u64, u64) {
    (groups[g].0, groups[g].1@[k])
}

/// The offsets of `groups`, each with the log file of its group, group after
/// group.
pub open spec fn unrolled(groups: Seq<(u64, Vec<u64>)>) -> Seq<(u64, u64)>
    decreases groups.len(),
{
    if groups.len() == 0 {
        Seq::empty()
    } else {
        unrolled(groups.drop_last()) + Seq::new(
            groups.last().1@.len(),
            |k: int| (groups.last().0, groups.last().1@[k]),
        )
    }
}

/// Whether `groups` are the runs of `places`: group after group they hold
/// the places in their order, each under the log file of the places of its
/// run; no group is empty; and neighbouring groups differ in their log file.
pub open spec fn are_runs_of(groups: Seq<(u64, Vec<u64>)>, places: Seq<CommandIndex>) -> bool {
    &&& unrolled(groups) == spots(places)
    &&& forall|g: int| 0 <= g < groups.len() ==> (#[trigger] groups[g]).1@.len() > 0
    &&& forall|g: int| 0 < g < groups.len() ==> groups[g - 1].0 != (#[trigger] groups[g]).0
}

/// `Itertools::sorted_by_key`, with the log file of a place as its key: the
/// same places, as often as before, in ascending order of their log files.
#[verifier::external_body]
pub(crate) fn sorted_by_log_id(places: Vec<CommandIndex>) -> (r: Vec<CommandIndex>)
    ensures
        r@.to_multiset() == places@.to_multiset(),
        by_log_file(r@),
{
    places.into_iter().sorted_by_key(|place| place.log_id).collect()
}

/// `Itertools::group_by`, with the log file of a place as its key: the runs
/// of neighbouring places that lie in the same log file, each run as that
/// log file and the offsets of its places.
#[verifier::external_body]
pub(crate) fn grouped_by_log_id(places: Vec<CommandIndex>) -> (r: Vec<(u64, Vec<u64>)>)
    ensures
        are_runs_of(r@, places@),
{
    let groups = places.into_iter().group_by(|place| place.log_id);
    groups.into_iter().map(|(id, run)| (id, run.map(|place| place.offset).collect())).collect()
}

/// Where group `g` begins among the unrolled offsets.
pub open spec fn start_of(groups: Seq<(u64, Vec<u64>)>, g: int) -> int {
    unrolled(groups.take(g)).len() as int
}

/// Where offset `k` of group `g` lies among the unrolled offsets.
pub open spec fn spot_of(groups: Seq<(u64, Vec<u64>)>, g: int, k: int) -> int {
    start_of(groups, g) + k
}

/// Each offset of each group is found among the unrolled offsets, at its
/// place behind the start of its group.
pub proof fn lemma_unrolled_at(groups: Seq<(u64, Vec<u64>)>, g: int, k: int)
    requires
        0 <= g < groups.len(),
        0 <= k < groups[g].1@.len(),
    ensures
        0 <= spot_of(groups, g, k) < unrolled(groups).len(),
        unrolled(groups)[spot_of(groups, g, k)] == item(groups, g, k),
    decreases groups.len(),
{
    let front = groups.drop_last();
    if g == groups.len() - 1 {
        assert(groups.take(g) =~= front);
    } else {
        lemma_unrolled_at(front, g, k);
        assert(front.take(g) =~= groups.take(g));
        assert(front[g] == groups[g]);
    }
}

/// Each of the unrolled offsets is an offset of a group.
pub proof fn lemma_unrolled_covers(groups: Seq<(u64, Vec<u64>)>, i: int)
    requires
        0 <= i < unrolled(groups).len(),
    ensures
        exists|g: int, k: int|
            0 <= g < groups.len() && 0 <= k < groups[g].1@.len() && #[trigger] spot_of(
                groups,
                g,
                k,
            ) == i,
    decreases groups.len(),
{
    let front = groups.drop_last();
    if i < unrolled(front).len() {
        lemma_unrolled_covers(front, i);
        let (g, k) = choose|g: int, k: int|
            0 <= g < front.len() && 0 <= k < front[g].1@.len() && #[trigger] spot_of(front, g, k)
                == i;
        assert(front.take(g) =~= groups.take(g));
        assert(front[g] == groups[g]);
        assert(spot_of(groups, g, k) == i);
    } else {
        let g = groups.len() - 1;
        let k = i - unrolled(front).len();
        assert(groups.take(g) =~= front);
        assert(spot_of(groups, g, k) == i);
    }
}

/// A later group begins behind the end of an earlier group that is not
/// empty.
pub proof fn lemma_starts_go_up(groups: Seq<(u64, Vec<u64>)>, g: int, h: int)
    requires
        0 <= g < h <= groups.len(),
        groups[g].1@.len() > 0,
    ensures
        start_of(groups, g) + groups[g].1@.len() <= start_of(groups, h),
{
    let upto = groups.take(h);
    assert(upto[g] == groups[g]);
    assert(upto.take(g) =~= groups.take(g));
    lemma_unrolled_at(upto, g, groups[g].1@.len() - 1);
}

/// The runs of places that lie in ascending order of their log files have
/// log files that go strictly up.
pub proof fn lemma_runs_go_up(
    groups: Seq<(u64, Vec<u64>)>,
    places: Seq<CommandIndex>,
    g: int,
    h: int,
)
    requires
        are_runs_of(groups, places),
        by_log_file(places),
        0 <= g < h < groups.len(),
    ensures
        groups[g].0 < groups[h].0,
{
    lemma_runs_do_not_go_down(groups, places, h - 1, h);
    if g < h - 1 {
        lemma_runs_do_not_go_down(groups, places, g, h - 1);
    }
    assert(groups[h - 1].0 != groups[h].0);
}

/// The runs of places that lie in ascending order of their log files have
/// log files that do not go down.
proof fn lemma_runs_do_not_go_down(
    groups: Seq<(u64, Vec<u64>)>,
    places: Seq<CommandIndex>,
    g: int,
    h: int,
)
    requires
        are_runs_of(groups, places),
        by_log_file(places),
        0 <= g < h < groups.len(),
    ensures
        groups[g].0 <= groups[h].0,
{
    assert(groups[g].1@.len() > 0);
    assert(groups[h].1@.len() > 0);
    lemma_unrolled_at(groups, g, 0);
    lemma_unrolled_at(groups, h, 0);
    lemma_starts_go_up(groups, g, h);
    let i = spot_of(groups, g, 0);
    let j = spot_of(groups, h, 0);
    assert(spots(places)[i] == item(groups, g, 0));
    assert(spots(places)[j] == item(groups, h, 0));
    assert(places[i].log_id <= places[j].log_id);
}

} // verus!
