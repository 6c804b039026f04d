//! Gates on an uploaded replay: the size bound checked before the
//! simulation oracle is consulted, and the consistency checks applied
//! to the oracle's verdict.

use vstd::prelude::*;

verus! {

/// Hard ceiling on an uploaded replay, in bytes (10 MiB). Uploads above
/// it are rejected before the simulation oracle is ever invoked.
pub const MAX_REPLAY_BYTES: usize = 10 * 1024 * 1024;

/// Outcome of a full re-simulation of a replay by the external oracle.
/// The oracle itself runs outside this crate; its verdict is handed in
/// as plain values and every decision taken on it is verified here.
#[derive(Clone, Copy, Debug)]
pub struct SimOutcome {
    /// The oracle failed outright (internal error or timeout sentinel).
    pub has_error: bool,
    /// Ticks the re-simulation actually took.
    pub elapsed_ticks: i32,
    /// Ticks the replay claims the run took.
    pub expected_ticks: i32,
}

/// A replay is internally consistent exactly when the oracle succeeded
/// and both independently derived tick counts are positive and agree.
pub open spec fn sim_consistent(sim: SimOutcome) -> bool {
    &&& !sim.has_error
    &&& sim.elapsed_ticks > 0
    &&& sim.expected_ticks > 0
    &&& sim.elapsed_ticks == sim.expected_ticks
}

/// True exactly when an upload of `len` bytes must be rejected for size.
pub fn replay_oversized(len: usize) -> (r: bool)
    ensures
        r == (len > MAX_REPLAY_BYTES),
{
    len > MAX_REPLAY_BYTES
}

/// Outcome of the oracle's cheap metadata-only query form, used on read
/// paths where proof of validity is not re-established.
#[derive(Clone, Copy, Debug)]
pub struct TtInfoOutcome {
    /// The oracle could not read the replay at all.
    pub has_error: bool,
    pub checkpoint_count: i32,
    pub tick_count: i32,
    pub replay_version: i32,
    pub backend_version: i32,
}

/// The gates a submitted replay must pass before it may touch the
/// ledger, in order: the size bound (checked before the oracle is ever
/// consulted), then the oracle's verdict. `Ok` carries the oracle
/// outcome whose `elapsed_ticks` is the proven time of the run.
pub fn validate_upload_tt_file(file_len: usize, sim: &SimOutcome) -> (r: Result<SimOutcome, String>)
    ensures
        r is Ok <==> (file_len <= MAX_REPLAY_BYTES && sim_consistent(*sim)),
        r is Ok ==> r->Ok_0 == *sim,
        file_len > MAX_REPLAY_BYTES ==> (r->Err_0)@ == "File size exceeds 10 MB limit"@,
        file_len <= MAX_REPLAY_BYTES && sim.has_error ==> (r->Err_0)@ == "TT simulation failed"@,
        file_len <= MAX_REPLAY_BYTES && !sim.has_error && sim.elapsed_ticks <= 0 ==> (r->Err_0)@
            == "Simulated TT has non-positive tick count, invalid TT data"@,
        file_len <= MAX_REPLAY_BYTES && !sim.has_error && sim.elapsed_ticks > 0
            && sim.expected_ticks <= 0 ==> (r->Err_0)@
            == "Simulated TT has non-positive expected tick count, invalid TT data"@,
        file_len <= MAX_REPLAY_BYTES && !sim.has_error && sim.elapsed_ticks > 0
            && sim.expected_ticks > 0 && sim.elapsed_ticks != sim.expected_ticks ==> (r->Err_0)@
            == "The simulation did not succeed; either the car or stage is corrupted, or you are using an old version."@,
{
    if file_len > MAX_REPLAY_BYTES {
        return Err("File size exceeds 10 MB limit".to_owned());
    }
    if sim.has_error {
        return Err("TT simulation failed".to_owned());
    }
    if sim.elapsed_ticks <= 0 {
        return Err("Simulated TT has non-positive tick count, invalid TT data".to_owned());
    }
    if sim.expected_ticks <= 0 {
        return Err("Simulated TT has non-positive expected tick count, invalid TT data".to_owned());
    }
    if sim.elapsed_ticks != sim.expected_ticks {
        return Err(
            "The simulation did not succeed; either the car or stage is corrupted, or you are using an old version.".to_owned(),
        );
    }
    Ok(*sim)
}

/// Extract the replay-format version from a metadata query, rejecting a
/// query the oracle could not answer.
pub fn get_tt_version(info: &TtInfoOutcome) -> (r: Result<i32, String>)
    ensures
        r is Ok <==> !info.has_error,
        r is Ok ==> r->Ok_0 == info.replay_version,
        info.has_error ==> (r->Err_0)@ == "TT info fetch failed"@,
{
    if info.has_error {
        return Err("TT info fetch failed".to_owned());
    }
    Ok(info.replay_version)
}

} // verus!
