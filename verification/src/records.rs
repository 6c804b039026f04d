//! The durable ledger of best-known time-trial results: at most one
//! record per (user, car, stage) triple, with a record id that stays
//! stable across updates so the replay file it names can be replaced
//! in place.

use vstd::prelude::*;

verus! {

/// One best-time row: who drove what, where, how long it took, and
/// which replay-format version produced it.
#[derive(Clone, Copy, Debug, PartialEq)]
pub struct TimeTrialEntry {
    /// Stable across updates; also names the stored replay blob.
    pub id: u64,
    pub user_id: i32,
    pub car_id: u128,
    pub stage_id: u128,
    pub tt_version: i32,
    pub total_ticks: i32,
    /// Seconds since the epoch; `None` when never stamped.
    pub created_at: Option<u64>,
}

/// Does `e` belong to the (user, car, stage) triple?
pub open spec fn triple_matches(e: TimeTrialEntry, user_id: i32, car_id: u128, stage_id: u128) -> bool {
    e.user_id == user_id && e.car_id == car_id && e.stage_id == stage_id
}

/// Is some entry for the triple present?
pub open spec fn contains_triple(s: Seq<TimeTrialEntry>, user_id: i32, car_id: u128, stage_id: u128) -> bool {
    exists|i: int| 0 <= i < s.len() && triple_matches(s[i], user_id, car_id, stage_id)
}

/// Index of the entry for the triple; meaningful only under
/// `contains_triple`, and unique once the store is well formed.
pub open spec fn index_of_triple(s: Seq<TimeTrialEntry>, user_id: i32, car_id: u128, stage_id: u128) -> int {
    choose|i: int| 0 <= i < s.len() && triple_matches(s[i], user_id, car_id, stage_id)
}

/// The entry for the triple; meaningful only under `contains_triple`.
pub open spec fn entry_for(s: Seq<TimeTrialEntry>, user_id: i32, car_id: u128, stage_id: u128) -> TimeTrialEntry {
    s[index_of_triple(s, user_id, car_id, stage_id)]
}

/// Is some entry with this id present?
pub open spec fn contains_id(s: Seq<TimeTrialEntry>, id: u64) -> bool {
    exists|i: int| 0 <= i < s.len() && s[i].id == id
}

/// Index of the entry with this id; meaningful only under
/// `contains_id`, and unique once the store is well formed.
pub open spec fn spec_index_of_id(s: Seq<TimeTrialEntry>, id: u64) -> int {
    choose|i: int| 0 <= i < s.len() && s[i].id == id
}

/// No two rows share a (user, car, stage) triple.
pub open spec fn unique_triples(s: Seq<TimeTrialEntry>) -> bool {
    forall|i: int, j: int|
        0 <= i < j < s.len() ==> !(#[trigger] triple_matches(s[i], s[j].user_id, s[j].car_id, s[j].stage_id))
}

/// No two rows share an id.
pub open spec fn unique_ids(s: Seq<TimeTrialEntry>) -> bool {
    forall|i: int, j: int| 0 <= i < j < s.len() ==> (#[trigger] s[i].id) != (#[trigger] s[j].id)
}

/// Does `e` pass every filter that was supplied? An omitted filter
/// imposes no constraint; each supplied one narrows the result set.
pub open spec fn passes_filters(e: TimeTrialEntry, user_id: Option<i32>, car_id: Option<u128>, stage_id: Option<u128>) -> bool {
    &&& match user_id {
        Some(u) => e.user_id == u,
        None => true,
    }
    &&& match car_id {
        Some(c) => e.car_id == c,
        None => true,
    }
    &&& match stage_id {
        Some(s) => e.stage_id == s,
        None => true,
    }
}

/// Filtering a sequence extended by one element keeps the element
/// exactly when the predicate accepts it.
proof fn lemma_filter_push(s: Seq<TimeTrialEntry>, pred: spec_fn(TimeTrialEntry) -> bool, e: TimeTrialEntry)
    ensures
        s.push(e).filter(pred) == if pred(e) {
            s.filter(pred).push(e)
        } else {
            s.filter(pred)
        },
{
    reveal(Seq::filter);
    assert(s.push(e).drop_last() =~= s);
    assert(s.push(e).last() == e);
}

/// In a store with unique triples, a row matching the triple at
/// position `k` is the row `index_of_triple` names.
pub proof fn lemma_unique_triple_index(s: Seq<TimeTrialEntry>, user_id: i32, car_id: u128, stage_id: u128, k: int)
    requires
        unique_triples(s),
        0 <= k < s.len(),
        triple_matches(s[k], user_id, car_id, stage_id),
    ensures
        contains_triple(s, user_id, car_id, stage_id),
        index_of_triple(s, user_id, car_id, stage_id) == k,
{
    assert(contains_triple(s, user_id, car_id, stage_id));
    let w = index_of_triple(s, user_id, car_id, stage_id);
    if w < k {
        assert(triple_matches(s[w], s[k].user_id, s[k].car_id, s[k].stage_id));
    } else if k < w {
        assert(triple_matches(s[k], s[w].user_id, s[w].car_id, s[w].stage_id));
    }
}

/// In a store with unique ids, a row carrying `id` at position `k` is
/// the row `spec_index_of_id` names.
pub proof fn lemma_unique_id_index(s: Seq<TimeTrialEntry>, id: u64, k: int)
    requires
        unique_ids(s),
        0 <= k < s.len(),
        s[k].id == id,
    ensures
        contains_id(s, id),
        spec_index_of_id(s, id) == k,
{
    assert(contains_id(s, id));
}

/// The ledger itself. Uniqueness of the (user, car, stage) triple is an
/// invariant of the store, not of its callers, so no interleaving of
/// calls can produce duplicate rows.
pub struct RecordStore {
    entries: Vec<TimeTrialEntry>,
    next_id: u64,
}

impl RecordStore {
    /// All rows, in storage order.
    pub closed spec fn view(&self) -> Seq<TimeTrialEntry> {
        self.entries@
    }

    /// The id the next inserted row will receive.
    pub closed spec fn spec_next_id(&self) -> u64 {
        self.next_id
    }

    /// Well-formedness: one row per triple, one row per id, and every
    /// id already handed out is below `next_id`.
    pub open spec fn wf(&self) -> bool {
        &&& unique_triples(self@)
        &&& unique_ids(self@)
        &&& forall|i: int| 0 <= i < self@.len() ==> (#[trigger] self@[i].id) < self.spec_next_id()
    }

    pub fn new() -> (r: RecordStore)
        ensures
            r.wf(),
            r@ == Seq::<TimeTrialEntry>::empty(),
            r.spec_next_id() == 0,
    {
        RecordStore { entries: Vec::new(), next_id: 0 }
    }

    /// Point lookup by (user, car, stage).
    pub fn find_triple(&self, user_id: i32, car_id: u128, stage_id: u128) -> (r: Option<&TimeTrialEntry>)
        requires
            self.wf(),
        ensures
            match r {
                Some(e) => contains_triple(self@, user_id, car_id, stage_id)
                    && *e == entry_for(self@, user_id, car_id, stage_id),
                None => !contains_triple(self@, user_id, car_id, stage_id),
            },
    {
        let n = self.entries.len();
        let mut k: usize = 0;
        while k < n
            invariant
                n == self@.len(),
                0 <= k <= n,
                self.wf(),
                forall|i: int| 0 <= i < k ==> !triple_matches(self@[i], user_id, car_id, stage_id),
            decreases n - k,
        {
            let e = &self.entries[k];
            if e.user_id == user_id && e.car_id == car_id && e.stage_id == stage_id {
                proof {
                    assert(triple_matches(self@[k as int], user_id, car_id, stage_id));
                    let w = index_of_triple(self@, user_id, car_id, stage_id);
                    if w != k as int {
                        if w < k as int {
                            assert(triple_matches(self@[w], self@[k as int].user_id, self@[k as int].car_id, self@[k as int].stage_id));
                        } else {
                            assert(triple_matches(self@[k as int], self@[w].user_id, self@[w].car_id, self@[w].stage_id));
                        }
                    }
                }
                return Some(e);
            }
            k = k + 1;
        }
        None
    }

    /// Insert a new row for the triple, or — when one already exists —
    /// only refresh its timestamp, keeping its id, ticks and version.
    /// A collision is folded into "record already exists" rather than
    /// surfaced as an error, so the caller can reconcile against the
    /// returned row.
    pub fn insert(&mut self, user_id: i32, car_id: u128, stage_id: u128, tt_version: i32, total_ticks: i32, now: u64) -> (r: TimeTrialEntry)
        requires
            old(self).wf(),
            old(self).spec_next_id() < u64::MAX,
        ensures
            final(self).wf(),
            contains_triple(final(self)@, user_id, car_id, stage_id),
            r == entry_for(final(self)@, user_id, car_id, stage_id),
            triple_matches(r, user_id, car_id, stage_id),
            if contains_triple(old(self)@, user_id, car_id, stage_id) {
                let i = index_of_triple(old(self)@, user_id, car_id, stage_id);
                let e = old(self)@[i];
                r == (TimeTrialEntry { created_at: Some(now), ..e })
                    && final(self)@ == old(self)@.update(i, r)
                    && final(self).spec_next_id() == old(self).spec_next_id()
            } else {
                r == (TimeTrialEntry {
                    id: old(self).spec_next_id(),
                    user_id,
                    car_id,
                    stage_id,
                    tt_version,
                    total_ticks,
                    created_at: Some(now),
                }) && final(self)@ == old(self)@.push(r)
                    && final(self).spec_next_id() == old(self).spec_next_id() + 1
            },
    {
        let n = self.entries.len();
        let mut k: usize = 0;
        while k < n
            invariant
                n == self@.len(),
                0 <= k <= n,
                *self == *old(self),
                self.wf(),
                old(self).spec_next_id() < u64::MAX,
                forall|i: int| 0 <= i < k ==> !triple_matches(self@[i], user_id, car_id, stage_id),
            decreases n - k,
        {
            let e = self.entries[k];
            if e.user_id == user_id && e.car_id == car_id && e.stage_id == stage_id {
                proof {
                    assert(triple_matches(self@[k as int], user_id, car_id, stage_id));
                    lemma_unique_triple_index(self@, user_id, car_id, stage_id, k as int);
                }
                let mut e = self.entries.remove(k);
                e.created_at = Some(now);
                self.entries.insert(k, e);
                proof {
                    assert(self@ =~= old(self)@.update(k as int, e));
                    lemma_unique_triple_index(self@, user_id, car_id, stage_id, k as int);
                }
                return e;
            }
            k = k + 1;
        }
        let r = TimeTrialEntry {
            id: self.next_id,
            user_id,
            car_id,
            stage_id,
            tt_version,
            total_ticks,
            created_at: Some(now),
        };
        self.entries.push(r);
        self.next_id = self.next_id + 1;
        proof {
            lemma_unique_triple_index(self@, user_id, car_id, stage_id, old(self)@.len() as int);
        }
        r
    }

    /// Overwrite the ticks, version and timestamp of the row with this
    /// id, in place; rows with other ids are untouched.
    pub fn update(&mut self, id: u64, tt_version: i32, total_ticks: i32, now: u64) -> (r: bool)
        requires
            old(self).wf(),
        ensures
            final(self).wf(),
            final(self).spec_next_id() == old(self).spec_next_id(),
            r == contains_id(old(self)@, id),
            if contains_id(old(self)@, id) {
                let i = spec_index_of_id(old(self)@, id);
                final(self)@ == old(self)@.update(
                    i,
                    TimeTrialEntry { tt_version, total_ticks, created_at: Some(now), ..old(self)@[i] },
                )
            } else {
                final(self)@ == old(self)@
            },
    {
        let n = self.entries.len();
        let mut k: usize = 0;
        while k < n
            invariant
                n == self@.len(),
                0 <= k <= n,
                *self == *old(self),
                self.wf(),
                forall|i: int| 0 <= i < k ==> (#[trigger] self@[i].id) != id,
            decreases n - k,
        {
            if self.entries[k].id == id {
                proof {
                    lemma_unique_id_index(self@, id, k as int);
                }
                let mut e = self.entries.remove(k);
                e.tt_version = tt_version;
                e.total_ticks = total_ticks;
                e.created_at = Some(now);
                self.entries.insert(k, e);
                proof {
                    let s0 = old(self)@;
                    let s1 = self@;
                    assert(s1 =~= s0.update(k as int, e));
                    assert forall|i: int, j: int|
                        0 <= i < j < s1.len() implies !(#[trigger] triple_matches(
                        s1[i],
                        s1[j].user_id,
                        s1[j].car_id,
                        s1[j].stage_id,
                    )) by {
                        assert(!triple_matches(s0[i], s0[j].user_id, s0[j].car_id, s0[j].stage_id));
                    };
                    assert forall|i: int, j: int| 0 <= i < j < s1.len() implies (#[trigger] s1[i].id)
                        != (#[trigger] s1[j].id) by {
                        assert(s0[i].id != s0[j].id);
                    };
                }
                return true;
            }
            k = k + 1;
        }
        false
    }

    /// Filtered listing: each supplied filter narrows the result set,
    /// omitted filters impose no constraint. Rows come back in storage
    /// order. (Callers one layer up require at least one filter.)
    pub fn filter(&self, user_id: Option<i32>, car_id: Option<u128>, stage_id: Option<u128>) -> (r: Vec<TimeTrialEntry>)
        ensures
            r@ == self@.filter(|e: TimeTrialEntry| passes_filters(e, user_id, car_id, stage_id)),
    {
        let ghost pred = |e: TimeTrialEntry| passes_filters(e, user_id, car_id, stage_id);
        let n = self.entries.len();
        let mut r: Vec<TimeTrialEntry> = Vec::new();
        let mut k: usize = 0;
        proof {
            assert(self@.subrange(0, 0) =~= Seq::<TimeTrialEntry>::empty());
            reveal(Seq::filter);
        }
        while k < n
            invariant
                n == self@.len(),
                0 <= k <= n,
                r@ == self@.subrange(0, k as int).filter(pred),
                pred == (|e: TimeTrialEntry| passes_filters(e, user_id, car_id, stage_id)),
            decreases n - k,
        {
            let e = self.entries[k];
            proof {
                assert(self@.subrange(0, k + 1 as int) =~= self@.subrange(0, k as int).push(
                    self@[k as int],
                ));
                lemma_filter_push(self@.subrange(0, k as int), pred, self@[k as int]);
            }
            let mut keep = true;
            if let Some(u) = user_id {
                if e.user_id != u {
                    keep = false;
                }
            }
            if let Some(c) = car_id {
                if e.car_id != c {
                    keep = false;
                }
            }
            if let Some(s) = stage_id {
                if e.stage_id != s {
                    keep = false;
                }
            }
            if keep {
                r.push(e);
            }
            k = k + 1;
        }
        proof {
            assert(self@.subrange(0, n as int) =~= self@);
        }
        r
    }

    /// Listing by user alone.
    pub fn filter_by_user(&self, user_id: i32) -> (r: Vec<TimeTrialEntry>)
        ensures
            r@ == self@.filter(|e: TimeTrialEntry| passes_filters(e, Some(user_id), None, None)),
    {
        self.filter(Some(user_id), None, None)
    }

    /// Listing by car alone.
    pub fn filter_by_car(&self, car_id: u128) -> (r: Vec<TimeTrialEntry>)
        ensures
            r@ == self@.filter(|e: TimeTrialEntry| passes_filters(e, None, Some(car_id), None)),
    {
        self.filter(None, Some(car_id), None)
    }

    /// Listing by stage alone.
    pub fn filter_by_stage(&self, stage_id: u128) -> (r: Vec<TimeTrialEntry>)
        ensures
            r@ == self@.filter(|e: TimeTrialEntry| passes_filters(e, None, None, Some(stage_id))),
    {
        self.filter(None, None, Some(stage_id))
    }

    /// Remove the row with this id, if any.
    pub fn delete(&mut self, id: u64) -> (r: bool)
        requires
            old(self).wf(),
        ensures
            final(self).wf(),
            final(self).spec_next_id() == old(self).spec_next_id(),
            r == contains_id(old(self)@, id),
            if contains_id(old(self)@, id) {
                final(self)@ == old(self)@.remove(spec_index_of_id(old(self)@, id))
            } else {
                final(self)@ == old(self)@
            },
    {
        let n = self.entries.len();
        let mut k: usize = 0;
        while k < n
            invariant
                n == self@.len(),
                0 <= k <= n,
                *self == *old(self),
                self.wf(),
                forall|i: int| 0 <= i < k ==> (#[trigger] self@[i].id) != id,
            decreases n - k,
        {
            if self.entries[k].id == id {
                proof {
                    lemma_unique_id_index(self@, id, k as int);
                }
                self.entries.remove(k);
                proof {
                    let s0 = old(self)@;
                    let s1 = self@;
                    assert forall|i: int, j: int|
                        0 <= i < j < s1.len() implies !(#[trigger] triple_matches(
                        s1[i],
                        s1[j].user_id,
                        s1[j].car_id,
                        s1[j].stage_id,
                    )) by {
                        let i0 = if i < k as int { i } else { i + 1 };
                        let j0 = if j < k as int { j } else { j + 1 };
                        assert(s1[i] == s0[i0] && s1[j] == s0[j0]);
                        assert(!triple_matches(s0[i0], s0[j0].user_id, s0[j0].car_id, s0[j0].stage_id));
                    };
                    assert forall|i: int, j: int| 0 <= i < j < s1.len() implies (#[trigger] s1[i].id)
                        != (#[trigger] s1[j].id) by {
                        let i0 = if i < k as int { i } else { i + 1 };
                        let j0 = if j < k as int { j } else { j + 1 };
                        assert(s1[i] == s0[i0] && s1[j] == s0[j0]);
                        assert(s0[i0].id != s0[j0].id);
                    };
                    assert forall|i: int| 0 <= i < s1.len() implies (#[trigger] s1[i].id)
                        < self.spec_next_id() by {
                        let i0 = if i < k as int { i } else { i + 1 };
                        assert(s1[i] == s0[i0]);
                    };
                }
                return true;
            }
            k = k + 1;
        }
        false
    }

    /// Point lookup by record id.
    pub fn get_by_id(&self, id: u64) -> (r: Option<&TimeTrialEntry>)
        requires
            self.wf(),
        ensures
            match r {
                Some(e) => contains_id(self@, id) && e.id == id && self@.contains(*e),
                None => !contains_id(self@, id),
            },
    {
        let n = self.entries.len();
        let mut k: usize = 0;
        while k < n
            invariant
                n == self@.len(),
                0 <= k <= n,
                forall|i: int| 0 <= i < k ==> (#[trigger] self@[i].id) != id,
            decreases n - k,
        {
            let e = &self.entries[k];
            if e.id == id {
                return Some(e);
            }
            k = k + 1;
        }
        None
    }
}

} // verus!
