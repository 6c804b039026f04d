//! The submission pipeline: authenticated callers hand in a replay, the
//! size bound and the oracle's verdict gate it, and an atomic
//! read-compare-write against the ledger decides whether it supersedes
//! the stored best time for its (user, car, stage) triple.

use vstd::prelude::*;

use crate::blobs::BlobStore;
use crate::records::{
    contains_triple, entry_for, index_of_triple, lemma_unique_id_index, lemma_unique_triple_index,
    RecordStore, TimeTrialEntry,
};
use crate::tt::{sim_consistent, SimOutcome, TtInfoOutcome, MAX_REPLAY_BYTES};

verus! {

/// What became of a submission.
#[derive(Clone, Copy, Debug, PartialEq, Eq, Structural)]
pub enum SubmitOutcome {
    /// First result for the triple; carries the fresh record id.
    AcceptedNew(u64),
    /// Equal-or-faster than the stored record, which was updated in
    /// place; carries the (reused) record id.
    AcceptedImproved(u64),
    /// Strictly slower than the stored record; nothing was touched.
    RejectedSlower,
    /// The oracle failed, reported an inconsistent run, or could not
    /// answer the metadata query; nothing was touched.
    RejectedInvalid,
    /// Over the size ceiling; rejected before the oracle is consulted,
    /// and nothing was touched.
    RejectedOversized,
}

/// The two stores a submission commits to: the authoritative record
/// ledger and the replay bytes backing each row.
pub struct Ledger {
    pub records: RecordStore,
    pub blobs: BlobStore,
}

/// Every gate a submission must pass before it may touch the stores.
pub open spec fn submission_valid(len: nat, sim: SimOutcome, info: TtInfoOutcome) -> bool {
    &&& len <= MAX_REPLAY_BYTES
    &&& sim_consistent(sim)
    &&& !info.has_error
}

/// How one valid submission with `new_ticks` advances the best time
/// stored for a triple: a missing record is created, an equal-or-slower
/// one is superseded, a strictly faster one stands.
pub open spec fn apply_submission(cur: Option<i32>, new_ticks: i32) -> Option<i32> {
    match cur {
        None => Some(new_ticks),
        Some(t) => if t >= new_ticks {
            Some(new_ticks)
        } else {
            Some(t)
        },
    }
}

/// The stored best time after a whole sequence of valid submissions for
/// one triple lands, one at a time, in the given order.
pub open spec fn settle(cur: Option<i32>, subs: Seq<i32>) -> Option<i32>
    decreases subs.len(),
{
    if subs.len() == 0 {
        cur
    } else {
        settle(apply_submission(cur, subs[0]), subs.drop_first())
    }
}

/// Any number of submissions for the same triple, applied in any order,
/// settle on exactly one record whose stored tick count is the minimum
/// among all of them — the ordering guarantee concurrent submissions
/// rely on. Each `submit_time_trial` call advances the stored time by
/// `apply_submission` under one exclusive borrow of the ledger, so any
/// interleaving of N concurrent submissions is some sequence `subs`,
/// and this law pins where that sequence ends.
pub proof fn lemma_submissions_settle_on_min(cur: Option<i32>, subs: Seq<i32>)
    requires
        subs.len() > 0 || cur is Some,
    ensures
        settle(cur, subs) is Some,
        forall|i: int| 0 <= i < subs.len() ==> settle(cur, subs)->0 <= #[trigger] subs[i],
        cur is Some ==> settle(cur, subs)->0 <= cur->0,
        (exists|i: int| 0 <= i < subs.len() && settle(cur, subs)->0 == subs[i]) || (cur is Some
            && settle(cur, subs)->0 == cur->0),
    decreases subs.len(),
{
    if subs.len() == 0 {
    } else {
        let next = apply_submission(cur, subs[0]);
        lemma_submissions_settle_on_min(next, subs.drop_first());
        let rest = subs.drop_first();
        let r = settle(cur, subs);
        assert(r == settle(next, rest));
        assert forall|i: int| 0 <= i < subs.len() implies r->0 <= #[trigger] subs[i] by {
            if i == 0 {
                assert(next->0 <= subs[0]);
            } else {
                assert(rest[i - 1] == subs[i]);
            }
        };
        if exists|i: int| 0 <= i < rest.len() && r->0 == rest[i] {
            let i = choose|i: int| 0 <= i < rest.len() && r->0 == rest[i];
            assert(subs[i + 1] == rest[i]);
        } else {
            assert(r->0 == next->0);
            if cur is Some && next->0 == cur->0 {
            } else {
                assert(next->0 == subs[0]);
            }
        }
    }
}

impl Ledger {
    pub open spec fn wf(&self) -> bool {
        &&& self.records.wf()
        &&& self.blobs.wf()
    }

    /// The best tick count the ledger holds for a triple, if any.
    pub open spec fn ticks_for(&self, user_id: i32, car_id: u128, stage_id: u128) -> Option<i32> {
        if contains_triple(self.records@, user_id, car_id, stage_id) {
            Some(entry_for(self.records@, user_id, car_id, stage_id).total_ticks)
        } else {
            None
        }
    }

    pub fn new() -> (r: Ledger)
        ensures
            r.wf(),
            r.records@ == Seq::<TimeTrialEntry>::empty(),
            r.blobs@ == Map::<u64, Seq<u8>>::empty(),
            r.records.spec_next_id() == 0,
    {
        Ledger { records: RecordStore::new(), blobs: BlobStore::new() }
    }

    /// Submit a replay for (user, car, stage). The oracle's verdicts are
    /// handed in as plain values: the caller runs the oracle only after
    /// the size screen (`crate::tt::replay_oversized`) passes, and this
    /// function re-checks every gate in the same order regardless.
    /// The read-compare-write against both stores happens under one
    /// exclusive borrow, so no concurrent submission can interleave with
    /// the reconciliation decision.
    pub fn submit_time_trial(
        &mut self,
        user_id: i32,
        car_id: u128,
        stage_id: u128,
        replay: &[u8],
        sim: &SimOutcome,
        info: &TtInfoOutcome,
        now: u64,
    ) -> (r: SubmitOutcome)
        requires
            old(self).wf(),
            old(self).records.spec_next_id() < u64::MAX,
        ensures
            final(self).wf(),
            // Oversized uploads and inconsistent runs are terminal: the
            // ledger and blob store are untouched.
            replay@.len() > MAX_REPLAY_BYTES ==> r == SubmitOutcome::RejectedOversized,
            replay@.len() <= MAX_REPLAY_BYTES && !(sim_consistent(*sim) && !info.has_error)
                ==> r == SubmitOutcome::RejectedInvalid,
            !submission_valid(replay@.len(), *sim, *info) ==> *final(self) == *old(self),
            // A valid submission advances the stored best time exactly
            // as `apply_submission` says.
            submission_valid(replay@.len(), *sim, *info) ==> final(self).ticks_for(
                user_id,
                car_id,
                stage_id,
            ) == apply_submission(old(self).ticks_for(user_id, car_id, stage_id), sim.elapsed_ticks),
            // Reconciliation, case by case.
            submission_valid(replay@.len(), *sim, *info) ==> match old(self).ticks_for(
                user_id,
                car_id,
                stage_id,
            ) {
                None => {
                    let id = old(self).records.spec_next_id();
                    &&& r == SubmitOutcome::AcceptedNew(id)
                    &&& final(self).records@ == old(self).records@.push(
                        TimeTrialEntry {
                            id,
                            user_id,
                            car_id,
                            stage_id,
                            tt_version: info.replay_version,
                            total_ticks: sim.elapsed_ticks,
                            created_at: Some(now),
                        },
                    )
                    &&& final(self).blobs@ == old(self).blobs@.insert(id, replay@)
                },
                Some(t) => if t >= sim.elapsed_ticks {
                    let i = index_of_triple(old(self).records@, user_id, car_id, stage_id);
                    let id = old(self).records@[i].id;
                    &&& r == SubmitOutcome::AcceptedImproved(id)
                    &&& final(self).records@ == old(self).records@.update(
                        i,
                        TimeTrialEntry {
                            tt_version: info.replay_version,
                            total_ticks: sim.elapsed_ticks,
                            created_at: Some(now),
                            ..old(self).records@[i]
                        },
                    )
                    &&& final(self).blobs@ == old(self).blobs@.insert(id, replay@)
                } else {
                    &&& r == SubmitOutcome::RejectedSlower
                    &&& *final(self) == *old(self)
                },
            },
            // Whenever the submission was accepted, the record now holds
            // the proven tick count and the blob the submitted bytes.
            (r is AcceptedNew || r is AcceptedImproved) ==> {
                let e = entry_for(final(self).records@, user_id, car_id, stage_id);
                &&& contains_triple(final(self).records@, user_id, car_id, stage_id)
                &&& e.total_ticks == sim.elapsed_ticks
                &&& e.tt_version == info.replay_version
                &&& e.created_at == Some(now)
                &&& final(self).blobs@.dom().contains(e.id)
                &&& final(self).blobs@[e.id] == replay@
            },
            final(self).records.spec_next_id() <= old(self).records.spec_next_id() + 1,
    {
        if replay.len() > MAX_REPLAY_BYTES {
            return SubmitOutcome::RejectedOversized;
        }
        let consistent = !sim.has_error && sim.elapsed_ticks > 0 && sim.expected_ticks > 0
            && sim.elapsed_ticks == sim.expected_ticks;
        if !consistent || info.has_error {
            return SubmitOutcome::RejectedInvalid;
        }
        let existing = match self.records.find_triple(user_id, car_id, stage_id) {
            Some(e) => Some((e.id, e.total_ticks)),
            None => None,
        };
        match existing {
            None => {
                let entry = self.records.insert(
                    user_id,
                    car_id,
                    stage_id,
                    info.replay_version,
                    sim.elapsed_ticks,
                    now,
                );
                self.blobs.write(entry.id, replay);
                proof {
                    lemma_unique_triple_index(
                        final(self).records@,
                        user_id,
                        car_id,
                        stage_id,
                        old(self).records@.len() as int,
                    );
                }
                SubmitOutcome::AcceptedNew(entry.id)
            },
            Some((id, total_ticks)) => {
                if total_ticks >= sim.elapsed_ticks {
                    proof {
                        let i = index_of_triple(old(self).records@, user_id, car_id, stage_id);
                        lemma_unique_id_index(old(self).records@, id, i);
                    }
                    self.records.update(id, info.replay_version, sim.elapsed_ticks, now);
                    self.blobs.write(id, replay);
                    proof {
                        let i = index_of_triple(old(self).records@, user_id, car_id, stage_id);
                        lemma_unique_triple_index(
                            final(self).records@,
                            user_id,
                            car_id,
                            stage_id,
                            i,
                        );
                    }
                    SubmitOutcome::AcceptedImproved(id)
                } else {
                    SubmitOutcome::RejectedSlower
                }
            },
        }
    }
}

} // verus!

