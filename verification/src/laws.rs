//! Laws of the aggregation, stated over the table's model.
//!
//! `record_creation` is the model of one table mutation; these proofs
//! relate whole sequences of mutations to plain counting and summing.

use vstd::prelude::*;

use crate::stats::record_creation;
use crate::stats::stats_plus;
use crate::stats::FolderStats;

verus! {

/// One creation event at the model level: the folder it falls under and
/// the created file's byte size.
pub struct CreationRecord {
    pub folder: Seq<char>,
    pub size: u64,
}

/// The table model after recording `evs` in order, starting from `m`.
pub open spec fn apply_all(
    m: Map<Seq<char>, FolderStats>,
    evs: Seq<CreationRecord>,
) -> Map<Seq<char>, FolderStats>
    decreases evs.len(),
{
    if evs.len() == 0 {
        m
    } else {
        record_creation(apply_all(m, evs.drop_last()), evs.last().folder, evs.last().size)
    }
}

/// How many events of `evs` fall under folder `f`.
pub open spec fn count_in(evs: Seq<CreationRecord>, f: Seq<char>) -> int
    decreases evs.len(),
{
    if evs.len() == 0 {
        0
    } else {
        count_in(evs.drop_last(), f) + (if evs.last().folder == f {
            1int
        } else {
            0int
        })
    }
}

/// The sum of the sizes of the events of `evs` under folder `f`.
pub open spec fn total_size_in(evs: Seq<CreationRecord>, f: Seq<char>) -> int
    decreases evs.len(),
{
    if evs.len() == 0 {
        0
    } else {
        total_size_in(evs.drop_last(), f) + (if evs.last().folder == f {
            evs.last().size as int
        } else {
            0int
        })
    }
}

/// Counts and size sums never go below zero.
proof fn lemma_tallies_nonneg(evs: Seq<CreationRecord>, f: Seq<char>)
    ensures
        count_in(evs, f) >= 0,
        total_size_in(evs, f) >= 0,
    decreases evs.len(),
{
    if evs.len() > 0 {
        lemma_tallies_nonneg(evs.drop_last(), f);
    }
}

/// A folder no event fell under accumulated no size.
proof fn lemma_zero_count_zero_size(evs: Seq<CreationRecord>, f: Seq<char>)
    requires
        count_in(evs, f) == 0,
    ensures
        total_size_in(evs, f) == 0,
    decreases evs.len(),
{
    if evs.len() > 0 {
        lemma_tallies_nonneg(evs.drop_last(), f);
        lemma_zero_count_zero_size(evs.drop_last(), f);
    }
}

/// After any sequence of creation events, starting from an empty table,
/// a folder appears exactly when an event fell under it; its file count
/// is then the number of those events and its size the sum of their
/// sizes — whatever order the events came in between other folders'.
pub proof fn lemma_creation_aggregation(evs: Seq<CreationRecord>, f: Seq<char>)
    requires
        total_size_in(evs, f) <= u64::MAX,
        count_in(evs, f) <= u64::MAX,
    ensures
        apply_all(Map::empty(), evs).dom().contains(f) <==> count_in(evs, f) > 0,
        apply_all(Map::empty(), evs).dom().contains(f) ==> apply_all(Map::empty(), evs)[f]
            == (FolderStats {
            size: total_size_in(evs, f) as u64,
            file_count: count_in(evs, f) as u64,
        }),
    decreases evs.len(),
{
    if evs.len() == 0 {
        assert(!Map::<Seq<char>, FolderStats>::empty().dom().contains(f));
    } else {
        let prefix = evs.drop_last();
        let last = evs.last();
        lemma_tallies_nonneg(prefix, f);
        lemma_creation_aggregation(prefix, f);
        let pm = apply_all(Map::empty(), prefix);
        if last.folder == f {
            let prev = if pm.dom().contains(f) {
                pm[f]
            } else {
                FolderStats { size: 0, file_count: 0 }
            };
            if pm.dom().contains(f) {
                assert(prev.size == total_size_in(prefix, f));
                assert(prev.file_count == count_in(prefix, f));
            } else {
                assert(count_in(prefix, f) == 0);
                lemma_zero_count_zero_size(prefix, f);
            }
            assert(apply_all(Map::empty(), evs)[f] == stats_plus(prev, last.size));
        } else {
            assert(apply_all(Map::empty(), evs).dom().contains(f) <==> pm.dom().contains(f));
            if pm.dom().contains(f) {
                assert(apply_all(Map::empty(), evs)[f] == pm[f]);
            }
        }
    }
}

/// Two creation events can be recorded in either order: the aggregation
/// is commutative. When both fall under the same folder, the folder's
/// counters must have room for both, which is what keeps either order
/// exact.
pub proof fn lemma_record_creation_commutes(
    m: Map<Seq<char>, FolderStats>,
    f1: Seq<char>,
    s1: u64,
    f2: Seq<char>,
    s2: u64,
)
    requires
        f1 == f2 ==> (if m.dom().contains(f1) {
            m[f1].size as int
        } else {
            0int
        }) + s1 + s2 <= u64::MAX,
        f1 == f2 ==> (if m.dom().contains(f1) {
            m[f1].file_count as int
        } else {
            0int
        }) + 2 <= u64::MAX,
    ensures
        record_creation(record_creation(m, f1, s1), f2, s2) == record_creation(
            record_creation(m, f2, s2),
            f1,
            s1,
        ),
{
    if f1 == f2 {
        assert(record_creation(record_creation(m, f1, s1), f2, s2) =~= record_creation(
            record_creation(m, f2, s2),
            f1,
            s1,
        ));
    } else {
        let lhs = record_creation(record_creation(m, f1, s1), f2, s2);
        let rhs = record_creation(record_creation(m, f2, s2), f1, s1);
        assert(record_creation(m, f1, s1).dom().contains(f2) <==> m.dom().contains(f2));
        assert(record_creation(m, f2, s2).dom().contains(f1) <==> m.dom().contains(f1));
        assert(lhs =~= rhs);
    }
}


} // verus!
