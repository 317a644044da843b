//! System-wide guarantees, stated and proved once over the workflow's
//! contracts and invariants.
//!
//! Together with the operations' own `ensures` (each error path leaves the
//! state untouched; each success is pinned exactly), these are the
//! guarantees a caller may rely on across whole runs.

use vstd::prelude::*;

use crate::errors::Error;
use crate::storage::StorageKey;
use crate::types::{DischargePlan, FollowUpAppointment};
use crate::workflow::{
    assess_err, complete_err, dme_err, education_err, home_health_err, initiate_err, order_err,
    risk_err, schedule_err, snf_err, state_inv, HospitalDischargeContract,
};

verus! {

/// Plan identifier uniqueness.
///
/// Every stored plan's identifier lies strictly below the plan counter, so
/// the counter's current value — the identifier the next successful
/// creation returns — was never issued before.  Since a successful creation
/// returns exactly the counter and advances it by one, while every other
/// outcome leaves it unchanged, the identifiers a run of creations returns
/// are 0, 1, 2, ... : pairwise distinct and strictly increasing.
pub proof fn lemma_plan_ids_fresh(s: HospitalDischargeContract, id: u64)
    requires
        s.wf(),
        id >= s.plan_count(),
    ensures
        !s.plan_exists(id),
{
    if s.plan_exists(id) {
        assert(s.state().contains_key(StorageKey::Plan(id)));
        assert(state_inv(s.state()));
    }
}

/// Lifecycle monotonicity.
///
/// Once a plan is completed, every further completion attempt on it is
/// rejected with `AlreadyCompleted`, whatever its other arguments; an
/// unauthorized attempt is rejected before the lifecycle is even consulted.
pub proof fn lemma_completion_is_terminal(plan: DischargePlan, auth_ok: bool)
    requires
        plan.is_completed,
    ensures
        complete_err(true, Some(plan)) == Some(Error::AlreadyCompleted),
        !auth_ok ==> complete_err(auth_ok, Some(plan)) == Some(Error::Unauthorized),
{
}

/// Completion-record coupling.
///
/// A completion record exists exactly for the plans whose lifecycle flag is
/// set: the flag and the write-once record move together.
pub proof fn lemma_completion_record_coupling(s: HospitalDischargeContract, id: u64)
    requires
        s.wf(),
    ensures
        s.completion(id) is Some <==> (s.plan(id) matches Some(p) && p.is_completed),
{
    assert(state_inv(s.state()));
}

/// Existence gating.
///
/// An identifier never returned by a creation refers to no stored plan, and
/// every operation but creation reports `PlanNotFound` for a missing plan,
/// whatever its other arguments.
pub proof fn lemma_existence_gating(s: HospitalDischargeContract, id: u64)
    requires
        s.wf(),
        id >= s.plan_count(),
    ensures
        !s.plan_exists(id),
        forall|s1: u32, s2: u32, s3: u32, s4: u32| #[trigger]
            assess_err(true, false, s1, s2, s3, s4) == Some(Error::PlanNotFound),
        order_err(true, false) == Some(Error::PlanNotFound),
        forall|f: u32, d: u32| #[trigger]
            home_health_err(true, false, f, d) == Some(Error::PlanNotFound),
        forall|dd: u64, t: u64| #[trigger] dme_err(true, false, dd, t) == Some(Error::PlanNotFound),
        forall|a: Seq<FollowUpAppointment>, t: u64| #[trigger]
            schedule_err(true, false, a, t) == Some(Error::PlanNotFound),
        education_err(true, false) == Some(Error::PlanNotFound),
        forall|td: u64, t: u64| #[trigger] snf_err(true, false, td, t) == Some(Error::PlanNotFound),
        complete_err(true, None) == Some(Error::PlanNotFound),
        forall|rs: u32| #[trigger] risk_err(true, false, rs) == Some(Error::PlanNotFound),
{
    lemma_plan_ids_fresh(s, id);
}

/// Date ordering.
///
/// Creation with an expected discharge not strictly after admission is
/// rejected with `InvalidDate`; so are an equipment order whose delivery,
/// and a facility transfer whose date, is not strictly in the future.
pub proof fn lemma_date_ordering(admission: u64, expected: u64, target: u64, now: u64)
    requires
        expected <= admission,
        target <= now,
    ensures
        initiate_err(true, admission, expected) == Some(Error::InvalidDate),
        dme_err(true, true, target, now) == Some(Error::InvalidDate),
        snf_err(true, true, target, now) == Some(Error::InvalidDate),
{
}

/// Batch atomicity.
///
/// One appointment with a non-future time rejects the whole batch with
/// `InvalidDate` — and, by the scheduling operation's contract, a rejected
/// batch leaves the state exactly as it was, the entries that individually
/// validated and the appointment counter included.
pub proof fn lemma_batch_atomicity(appointments: Seq<FollowUpAppointment>, now: u64, i: int)
    requires
        0 <= i < appointments.len(),
        appointments[i].scheduled_time <= now,
    ensures
        schedule_err(true, true, appointments, now) == Some(Error::InvalidDate),
{
}

/// Empty-batch rejection.
///
/// An empty appointment batch is rejected with `InvalidInput`, at any time.
pub proof fn lemma_empty_batch_rejected(appointments: Seq<FollowUpAppointment>, now: u64)
    requires
        appointments.len() == 0,
    ensures
        schedule_err(true, true, appointments, now) == Some(Error::InvalidInput),
{
}

} // verus!
