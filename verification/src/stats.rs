//! Per-folder aggregates and the table that owns them.
//!
//! The table maps a folder key (the parent directory of an observed file,
//! as a string) to a running aggregate: cumulative byte size and file count.
//! Its mathematical model is a `Map<Seq<char>, FolderStats>`.

use vstd::prelude::*;

verus! {

/// The running aggregate for one folder: cumulative byte size of the files
/// observed under it, and how many files were observed.
#[derive(Clone, Copy, PartialEq, Eq, Structural, Debug)]
pub struct FolderStats {
    pub size: u64,
    pub file_count: u64,
}

/// One row of the table: a folder key together with its aggregate.
#[derive(Debug)]
pub struct FolderEntry {
    pub folder: String,
    pub stats: FolderStats,
}

/// Mapping from folder key to aggregate, with at most one entry per key.
#[derive(Debug)]
pub struct StatsTable {
    entries: Vec<FolderEntry>,
}

/// The aggregate a folder carries after one more file of `file_size` bytes.
pub open spec fn stats_plus(prev: FolderStats, file_size: u64) -> FolderStats {
    FolderStats {
        size: (prev.size + file_size) as u64,
        file_count: (prev.file_count + 1) as u64,
    }
}

/// The model of the table after recording one created file of `file_size`
/// bytes under `folder`: a missing folder starts from a zeroed aggregate.
pub open spec fn record_creation(
    m: Map<Seq<char>, FolderStats>,
    folder: Seq<char>,
    file_size: u64,
) -> Map<Seq<char>, FolderStats> {
    let prev = if m.dom().contains(folder) {
        m[folder]
    } else {
        FolderStats { size: 0, file_count: 0 }
    };
    m.insert(folder, stats_plus(prev, file_size))
}

impl StatsTable {
    /// Each folder key occurs in at most one entry.
    pub closed spec fn wf(self) -> bool {
        forall|i: int, j: int|
            0 <= i < j < self.entries@.len() ==> self.entries@[i].folder@
                != self.entries@[j].folder@
    }

    spec fn has_key(self, k: Seq<char>) -> bool {
        exists|i: int| 0 <= i < self.entries@.len() && self.entries@[i].folder@ == k
    }

    spec fn key_index(self, k: Seq<char>) -> int {
        choose|i: int| 0 <= i < self.entries@.len() && self.entries@[i].folder@ == k
    }

    proof fn lemma_entry_view(self, i: int)
        requires
            self.wf(),
            0 <= i < self.entries@.len(),
        ensures
            self@.dom().contains(self.entries@[i].folder@),
            self@[self.entries@[i].folder@] == self.entries@[i].stats,
    {
        let k = self.entries@[i].folder@;
        assert(self.has_key(k));
        let j = self.key_index(k);
        assert(0 <= j < self.entries@.len() && self.entries@[j].folder@ == k);
        if i < j {
            assert(self.entries@[i].folder@ != self.entries@[j].folder@);
        } else if j < i {
            assert(self.entries@[j].folder@ != self.entries@[i].folder@);
        }
    }

    /// An empty table.
    pub fn new() -> (t: StatsTable)
        ensures
            t.wf(),
            t@ == Map::<Seq<char>, FolderStats>::empty(),
    {
        let t = StatsTable { entries: Vec::new() };
        proof {
            assert(t@ =~= Map::<Seq<char>, FolderStats>::empty());
        }
        t
    }

    /// The aggregate currently recorded for `folder`, if any.
    pub fn get(&self, folder: &String) -> (r: Option<FolderStats>)
        requires
            self.wf(),
        ensures
            r == (if self@.dom().contains(folder@) {
                Some(self@[folder@])
            } else {
                None::<FolderStats>
            }),
    {
        let n: usize = self.entries.len();
        let mut i: usize = 0;
        while i < n
            invariant
                self.wf(),
                n == self.entries@.len(),
                i <= n,
                forall|j: int| 0 <= j < i ==> self.entries@[j].folder@ != folder@,
            decreases n - i,
        {
            if self.entries[i].folder == *folder {
                proof {
                    self.lemma_entry_view(i as int);
                }
                return Some(self.entries[i].stats);
            }
            i += 1;
        }
        proof {
            assert(!self.has_key(folder@));
        }
        None
    }

    /// Record one created file of `file_size` bytes under `folder`: look up
    /// or insert a zeroed entry, then add 1 to its file count and `file_size`
    /// to its size.
    pub fn apply_creation(&mut self, folder: String, file_size: u64)
        requires
            old(self).wf(),
            old(self)@.dom().contains(folder@) ==> old(self)@[folder@].size + file_size
                <= u64::MAX,
            old(self)@.dom().contains(folder@) ==> old(self)@[folder@].file_count + 1
                <= u64::MAX,
        ensures
            final(self).wf(),
            final(self)@ == record_creation(old(self)@, folder@, file_size),
    {
        let ghost fv = folder@;
        let n: usize = self.entries.len();
        let mut i: usize = 0;
        while i < n
            invariant
                *self == *old(self),
                old(self).wf(),
                n == self.entries@.len(),
                i <= n,
                forall|j: int| 0 <= j < i ==> self.entries@[j].folder@ != fv,
                fv == folder@,
                old(self)@.dom().contains(fv) ==> old(self)@[fv].size + file_size
                    <= u64::MAX,
                old(self)@.dom().contains(fv) ==> old(self)@[fv].file_count + 1
                    <= u64::MAX,
            decreases n - i,
        {
            if self.entries[i].folder == folder {
                proof {
                    old(self).lemma_entry_view(i as int);
                }
                let prev = self.entries[i].stats;
                let updated = FolderStats {
                    size: prev.size + file_size,
                    file_count: prev.file_count + 1,
                };
                self.entries[i] = FolderEntry { folder, stats: updated };
                proof {
                    self.lemma_apply_found(*old(self), i as int, fv, file_size);
                }
                return;
            }
            i += 1;
        }
        self.entries.push(
            FolderEntry { folder, stats: FolderStats { size: file_size, file_count: 1 } },
        );
        proof {
            self.lemma_apply_pushed(*old(self), fv, file_size);
        }
    }

    /// After replacing entry `i` (same key, aggregate increased), the table
    /// models `record_creation` of the old table.
    proof fn lemma_apply_found(self, o: StatsTable, i: int, fv: Seq<char>, file_size: u64)
        requires
            o.wf(),
            0 <= i < o.entries@.len(),
            o.entries@[i].folder@ == fv,
            o@[fv].size + file_size <= u64::MAX,
            o@[fv].file_count + 1 <= u64::MAX,
            self.entries@.len() == o.entries@.len(),
            self.entries@[i].folder@ == fv,
            self.entries@[i].stats == stats_plus(o.entries@[i].stats, file_size),
            forall|a: int| 0 <= a < o.entries@.len() && a != i ==> self.entries@[a]
                == o.entries@[a],
        ensures
            self.wf(),
            self@ == record_creation(o@, fv, file_size),
    {
        o.lemma_entry_view(i);
        assert(forall|a: int|
            0 <= a < o.entries@.len() ==> self.entries@[a].folder@ == o.entries@[a].folder@);
        assert(self.wf());
        assert forall|k: Seq<char>| #[trigger] self@.dom().contains(k) implies self@[k]
            == record_creation(o@, fv, file_size)[k] by {
            let w = choose|w: int|
                0 <= w < self.entries@.len() && self.entries@[w].folder@ == k;
            self.lemma_entry_view(w);
            if k == fv {
                if w != i {
                    assert(self.entries@[w].folder@ == self.entries@[i].folder@);
                    assert(false);
                }
            } else {
                assert(w != i);
                o.lemma_entry_view(w);
            }
        }
        assert forall|k: Seq<char>| record_creation(o@, fv, file_size).dom().contains(
            k,
        ) implies self@.dom().contains(k) by {
            if k == fv {
                assert(self.entries@[i].folder@ == k);
            } else {
                let w = choose|w: int|
                    0 <= w < o.entries@.len() && o.entries@[w].folder@ == k;
                assert(self.entries@[w].folder@ == k);
            }
        }
        assert(self@ =~= record_creation(o@, fv, file_size));
    }

    /// After appending a fresh entry for `fv`, the table models
    /// `record_creation` of the old table.
    proof fn lemma_apply_pushed(self, o: StatsTable, fv: Seq<char>, file_size: u64)
        requires
            o.wf(),
            forall|j: int| 0 <= j < o.entries@.len() ==> o.entries@[j].folder@ != fv,
            self.entries@.len() == o.entries@.len() + 1,
            self.entries@[o.entries@.len() as int].folder@ == fv,
            self.entries@[o.entries@.len() as int].stats == (FolderStats {
                size: file_size,
                file_count: 1,
            }),
            forall|a: int| 0 <= a < o.entries@.len() ==> self.entries@[a] == o.entries@[a],
        ensures
            self.wf(),
            self@ == record_creation(o@, fv, file_size),
    {
        let n = o.entries@.len() as int;
        assert(self.wf());
        assert(!o.has_key(fv));
        assert(!o@.dom().contains(fv));
        assert forall|k: Seq<char>| #[trigger] self@.dom().contains(k) implies self@[k]
            == record_creation(o@, fv, file_size)[k] by {
            let w = choose|w: int|
                0 <= w < self.entries@.len() && self.entries@[w].folder@ == k;
            self.lemma_entry_view(w);
            if k == fv {
                if w != n {
                    assert(o.entries@[w].folder@ == fv);
                    assert(false);
                }
                assert(self@[k] == (FolderStats { size: file_size, file_count: 1 }));
                assert(stats_plus(FolderStats { size: 0, file_count: 0 }, file_size)
                    == (FolderStats { size: file_size, file_count: 1 }));
            } else {
                assert(w != n);
                o.lemma_entry_view(w);
            }
        }
        assert forall|k: Seq<char>| record_creation(o@, fv, file_size).dom().contains(
            k,
        ) implies self@.dom().contains(k) by {
            if k == fv {
                assert(self.entries@[n].folder@ == k);
            } else {
                let w = choose|w: int|
                    0 <= w < o.entries@.len() && o.entries@[w].folder@ == k;
                assert(self.entries@[w].folder@ == k);
            }
        }
        assert(self@ =~= record_creation(o@, fv, file_size));
    }
}

/// A sequence of rows whose sizes never increase from one row to the next.
pub open spec fn sorted_by_size_desc(s: Seq<FolderEntry>) -> bool {
    forall|a: int, b: int| 0 <= a < b < s.len() ==> s[a].stats.size >= s[b].stats.size
}

/// Every row of `s` carries a key of `m` together with the aggregate `m`
/// records for it.
pub open spec fn rows_of(m: Map<Seq<char>, FolderStats>, s: Seq<FolderEntry>) -> bool {
    forall|a: int| 0 <= a < s.len() ==> #[trigger] m.dom().contains(s[a].folder@) && s[a].stats
        == m[s[a].folder@]
}

/// Some row of `s` carries the key `k`.
pub open spec fn has_row_for(s: Seq<FolderEntry>, k: Seq<char>) -> bool {
    exists|a: int| 0 <= a < s.len() && #[trigger] s[a].folder@ == k
}

/// Every key of `m` has a row in `s`.
pub open spec fn covers(m: Map<Seq<char>, FolderStats>, s: Seq<FolderEntry>) -> bool {
    forall|k: Seq<char>| #[trigger] m.dom().contains(k) ==> has_row_for(s, k)
}

/// No two rows of `s` carry the same key.
pub open spec fn distinct_keys(s: Seq<FolderEntry>) -> bool {
    forall|a: int, b: int| 0 <= a < b < s.len() ==> s[a].folder@ != s[b].folder@
}

impl StatsTable {
    /// Row `r` copies one of the first `i` entries of the table.
    spec fn row_in_prefix(self, r: FolderEntry, i: int) -> bool {
        exists|j: int| 0 <= j < i && r.folder@ == #[trigger] self.entries@[j].folder@
            && r.stats == self.entries@[j].stats
    }

    /// Every row of `s` copies one of the first `i` entries of the table.
    spec fn rows_from_prefix(self, s: Seq<FolderEntry>, i: int) -> bool {
        forall|a: int| 0 <= a < s.len() ==> self.row_in_prefix(#[trigger] s[a], i)
    }

    /// Each of the first `i` entries of the table has a row in `s` with its key.
    spec fn prefix_covered(self, s: Seq<FolderEntry>, i: int) -> bool {
        forall|j: int| 0 <= j < i ==> has_row_for(s, #[trigger] self.entries@[j].folder@)
    }

    /// A copy of the table's rows, ordered by size, largest first: one row
    /// per folder, each carrying exactly the aggregate the table records for
    /// it. The order of rows with equal sizes is left open.
    pub fn snapshot_sorted(&self) -> (r: Vec<FolderEntry>)
        requires
            self.wf(),
        ensures
            sorted_by_size_desc(r@),
            rows_of(self@, r@),
            covers(self@, r@),
            distinct_keys(r@),
    {
        let mut out: Vec<FolderEntry> = Vec::new();
        let n: usize = self.entries.len();
        let mut i: usize = 0;
        while i < n
            invariant
                self.wf(),
                n == self.entries@.len(),
                i <= n,
                sorted_by_size_desc(out@),
                self.rows_from_prefix(out@, i as int),
                self.prefix_covered(out@, i as int),
                distinct_keys(out@),
            decreases n - i,
        {
            let e = FolderEntry {
                folder: self.entries[i].folder.clone(),
                stats: self.entries[i].stats,
            };
            proof {
                assert(e == self.entries@[i as int]);
            }
            let m: usize = out.len();
            let mut pos: usize = 0;
            while pos < m && out[pos].stats.size >= e.stats.size
                invariant
                    m == out@.len(),
                    pos <= m,
                    forall|a: int| 0 <= a < pos ==> out@[a].stats.size >= e.stats.size,
                decreases m - pos,
            {
                pos += 1;
            }
            let ghost prev_out = out@;
            out.insert(pos, e);
            proof {
                self.lemma_snapshot_step(prev_out, out@, e, pos as int, i as int);
            }
            i += 1;
        }
        proof {
            self.lemma_snapshot_done(out@);
        }
        out
    }

    /// One step of building the snapshot: inserting the copy of entry `i`
    /// at its sorted position keeps every invariant of the snapshot loop.
    proof fn lemma_snapshot_step(
        self,
        prev: Seq<FolderEntry>,
        cur: Seq<FolderEntry>,
        e: FolderEntry,
        pos: int,
        i: int,
    )
        requires
            self.wf(),
            0 <= i < self.entries@.len(),
            e.folder@ == self.entries@[i].folder@,
            e.stats == self.entries@[i].stats,
            0 <= pos <= prev.len(),
            cur == prev.insert(pos, e),
            sorted_by_size_desc(prev),
            forall|a: int| 0 <= a < pos ==> prev[a].stats.size >= e.stats.size,
            pos < prev.len() ==> prev[pos].stats.size < e.stats.size,
            self.rows_from_prefix(prev, i),
            self.prefix_covered(prev, i),
            distinct_keys(prev),
        ensures
            sorted_by_size_desc(cur),
            self.rows_from_prefix(cur, i + 1),
            self.prefix_covered(cur, i + 1),
            distinct_keys(cur),
    {
        prev.insert_ensures(pos, e);
        assert(cur.len() == prev.len() + 1);
        assert forall|a: int| pos < a < cur.len() implies cur[a] == prev[a - 1] by {
            assert(prev.insert(pos, e)[(a - 1) + 1] == prev[a - 1]);
        }
        assert forall|a: int, b: int| 0 <= a < b < cur.len() implies cur[a].stats.size
            >= cur[b].stats.size by {
            if b < pos {
                assert(cur[a] == prev[a] && cur[b] == prev[b]);
            } else if a < pos && b == pos {
                assert(cur[a] == prev[a]);
            } else if b > pos {
                if a < pos {
                    assert(cur[a] == prev[a]);
                    assert(prev[a].stats.size >= e.stats.size);
                } else if a == pos {
                    assert(cur[a] == e);
                } else {
                    assert(cur[a] == prev[a - 1]);
                }
                assert(cur[b] == prev[b - 1]);
                if a > pos {
                    assert(prev[a - 1].stats.size >= prev[b - 1].stats.size);
                } else {
                    assert(prev[b - 1].stats.size <= e.stats.size) by {
                        if pos < b - 1 {
                            assert(prev[pos].stats.size >= prev[b - 1].stats.size);
                        }
                    }
                }
            }
        }
        assert forall|a: int| 0 <= a < cur.len() implies self.row_in_prefix(
            #[trigger] cur[a],
            i + 1,
        ) by {
            if a < pos {
                assert(cur[a] == prev[a]);
                assert(self.row_in_prefix(prev[a], i));
                let j0 = choose|j0: int|
                    0 <= j0 < i && prev[a].folder@ == #[trigger] self.entries@[j0].folder@
                        && prev[a].stats == self.entries@[j0].stats;
                assert(cur[a].folder@ == self.entries@[j0].folder@ && cur[a].stats
                    == self.entries@[j0].stats);
            } else if a == pos {
                assert(cur[a].folder@ == self.entries@[i].folder@ && cur[a].stats
                    == self.entries@[i].stats);
            } else {
                assert(cur[a] == prev[a - 1]);
                assert(self.row_in_prefix(prev[a - 1], i));
                let j0 = choose|j0: int|
                    0 <= j0 < i && prev[a - 1].folder@ == #[trigger] self.entries@[j0].folder@
                        && prev[a - 1].stats == self.entries@[j0].stats;
                assert(cur[a].folder@ == self.entries@[j0].folder@ && cur[a].stats
                    == self.entries@[j0].stats);
            }
        }
        assert forall|j: int| 0 <= j < i + 1 implies has_row_for(
            cur,
            #[trigger] self.entries@[j].folder@,
        ) by {
            if j == i {
                assert(cur[pos].folder@ == self.entries@[j].folder@);
            } else {
                assert(has_row_for(prev, self.entries@[j].folder@));
                let a0 = choose|a0: int|
                    0 <= a0 < prev.len() && #[trigger] prev[a0].folder@
                        == self.entries@[j].folder@;
                if a0 < pos {
                    assert(cur[a0].folder@ == self.entries@[j].folder@);
                } else {
                    assert(cur[a0 + 1] == prev[a0]);
                    assert(cur[a0 + 1].folder@ == self.entries@[j].folder@);
                }
            }
        }
        assert forall|a: int, b: int| 0 <= a < b < cur.len() implies cur[a].folder@
            != cur[b].folder@ by {
            if a == pos {
                assert(cur[b] == prev[b - 1]);
                assert(self.row_in_prefix(prev[b - 1], i));
                let j0 = choose|j0: int|
                    0 <= j0 < i && prev[b - 1].folder@ == #[trigger] self.entries@[j0].folder@
                        && prev[b - 1].stats == self.entries@[j0].stats;
                assert(self.entries@[j0].folder@ != self.entries@[i].folder@);
            } else if b == pos {
                assert(cur[a] == prev[a]);
                assert(self.row_in_prefix(prev[a], i));
                let j0 = choose|j0: int|
                    0 <= j0 < i && prev[a].folder@ == #[trigger] self.entries@[j0].folder@
                        && prev[a].stats == self.entries@[j0].stats;
                assert(self.entries@[j0].folder@ != self.entries@[i].folder@);
            } else {
                let pa = if a < pos { a } else { a - 1 };
                let pb = if b < pos { b } else { b - 1 };
                assert(cur[a] == prev[pa]);
                assert(cur[b] == prev[pb]);
                assert(prev[pa].folder@ != prev[pb].folder@);
            }
        }
    }

    /// A snapshot in step with the whole entry sequence carries exactly the
    /// table's keys and aggregates.
    proof fn lemma_snapshot_done(self, s: Seq<FolderEntry>)
        requires
            self.wf(),
            self.rows_from_prefix(s, self.entries@.len() as int),
            self.prefix_covered(s, self.entries@.len() as int),
        ensures
            rows_of(self@, s),
            covers(self@, s),
    {
        assert forall|a: int| 0 <= a < s.len() implies #[trigger] self@.dom().contains(
            s[a].folder@,
        ) && s[a].stats == self@[s[a].folder@] by {
            assert(self.row_in_prefix(s[a], self.entries@.len() as int));
            let j = choose|j: int|
                0 <= j < self.entries@.len() && s[a].folder@ == #[trigger] self.entries@[
                    j
                ].folder@ && s[a].stats == self.entries@[j].stats;
            self.lemma_entry_view(j);
        }
        assert forall|k: Seq<char>| #[trigger] self@.dom().contains(k) implies has_row_for(
            s,
            k,
        ) by {
            let j = choose|j: int|
                0 <= j < self.entries@.len() && #[trigger] self.entries@[j].folder@ == k;
            assert(has_row_for(s, self.entries@[j].folder@));
        }
    }
}

impl View for StatsTable {
    type V = Map<Seq<char>, FolderStats>;

    closed spec fn view(&self) -> Map<Seq<char>, FolderStats> {
        Map::new(
            |k: Seq<char>| self.has_key(k),
            |k: Seq<char>| self.entries@[self.key_index(k)].stats,
        )
    }
}

} // verus!
