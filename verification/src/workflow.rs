//! The discharge workflow: entry points, validation rules and lifecycle.
//!
//! Every operation follows one template: take the outcome of the external
//! authorization check, validate the inputs, require the referenced plan to
//! exist (except creation), then perform its record store writes.  All
//! validation happens before the first write, so a rejected invocation
//! leaves the state exactly as it was — there is no partial effect to roll
//! back.
//!
//! The decision rules are spec functions (`initiate_err`, `assess_err`, ...)
//! so each operation's contract pins the exact outcome, success and failure
//! alike, for every input.

use vstd::prelude::*;

use crate::errors::Error;
use crate::storage::{
    agrees_except, agrees_except2, appointments_at, completion_at, count_at, dme_at, education_at,
    home_health_at, orders_at, plan_at, readiness_at, risk_at, snf_at, Record, Storage, StorageKey,
};
use crate::types::{
    CompletionRecord, DischargeOrder, DischargePlan, DmeOrder, EducationRecord,
    FollowUpAppointment, HomeHealthArrangement, ReadinessScore, ReadmissionRisk, SnfCoordination,
};

verus! {

/// Readiness threshold: a plan is ready when the mean sub-score reaches it.
pub const READINESS_THRESHOLD: u32 = 75;

/// Highest legal value of a percentage-style score.
pub const MAX_SCORE: u32 = 100;

// ---------------------------------------------------------------------------
// Decision rules, one spec function per operation.
//
// Each returns the error the operation reports, or `None` when it must
// succeed.  Authorization is always checked first, then plan existence,
// then the operation's own input rules.
// ---------------------------------------------------------------------------

/// Plan creation: the expected discharge must lie strictly after admission.
pub open spec fn initiate_err(
    auth_ok: bool,
    admission_date: u64,
    expected_discharge_date: u64,
) -> Option<Error> {
    if !auth_ok {
        Some(Error::Unauthorized)
    } else if expected_discharge_date <= admission_date {
        Some(Error::InvalidDate)
    } else {
        None
    }
}

/// Readiness assessment: all four sub-scores must be at most 100.
pub open spec fn assess_err(
    auth_ok: bool,
    plan_exists: bool,
    medical_stability_score: u32,
    functional_status_score: u32,
    support_system_score: u32,
    education_completion_score: u32,
) -> Option<Error> {
    if !auth_ok {
        Some(Error::Unauthorized)
    } else if !plan_exists {
        Some(Error::PlanNotFound)
    } else if medical_stability_score > MAX_SCORE || functional_status_score > MAX_SCORE
        || support_system_score > MAX_SCORE || education_completion_score > MAX_SCORE {
        Some(Error::InvalidScore)
    } else {
        None
    }
}

/// Mean of the four sub-scores, rounded down.
pub open spec fn readiness_total(
    medical_stability_score: u32,
    functional_status_score: u32,
    support_system_score: u32,
    education_completion_score: u32,
) -> u32 {
    ((medical_stability_score + functional_status_score + support_system_score
        + education_completion_score) / 4) as u32
}

/// The assessment record a successful readiness assessment stores and
/// returns.
pub open spec fn readiness_record(
    discharge_plan_id: u64,
    medical_stability_score: u32,
    functional_status_score: u32,
    support_system_score: u32,
    education_completion_score: u32,
    assessed_at: u64,
) -> ReadinessScore {
    ReadinessScore {
        discharge_plan_id,
        medical_stability_score,
        functional_status_score,
        support_system_score,
        education_completion_score,
        total_score: readiness_total(
            medical_stability_score,
            functional_status_score,
            support_system_score,
            education_completion_score,
        ),
        is_ready: readiness_total(
            medical_stability_score,
            functional_status_score,
            support_system_score,
            education_completion_score,
        ) >= READINESS_THRESHOLD,
        assessed_at,
    }
}

/// Order creation: only authorization and plan existence are checked.
pub open spec fn order_err(auth_ok: bool, plan_exists: bool) -> Option<Error> {
    if !auth_ok {
        Some(Error::Unauthorized)
    } else if !plan_exists {
        Some(Error::PlanNotFound)
    } else {
        None
    }
}

/// Home health arrangement: frequency and duration must both be positive.
pub open spec fn home_health_err(
    auth_ok: bool,
    plan_exists: bool,
    frequency_per_week: u32,
    duration_weeks: u32,
) -> Option<Error> {
    if !auth_ok {
        Some(Error::Unauthorized)
    } else if !plan_exists {
        Some(Error::PlanNotFound)
    } else if frequency_per_week == 0 || duration_weeks == 0 {
        Some(Error::InvalidInput)
    } else {
        None
    }
}

/// Equipment order: delivery must lie strictly in the future.
pub open spec fn dme_err(
    auth_ok: bool,
    plan_exists: bool,
    delivery_date: u64,
    current_time: u64,
) -> Option<Error> {
    if !auth_ok {
        Some(Error::Unauthorized)
    } else if !plan_exists {
        Some(Error::PlanNotFound)
    } else if delivery_date <= current_time {
        Some(Error::InvalidDate)
    } else {
        None
    }
}

/// Appointment batch: non-empty, and every entry scheduled strictly in the
/// future.  One bad entry rejects the whole batch.
pub open spec fn schedule_err(
    auth_ok: bool,
    plan_exists: bool,
    appointments: Seq<FollowUpAppointment>,
    current_time: u64,
) -> Option<Error> {
    if !auth_ok {
        Some(Error::Unauthorized)
    } else if !plan_exists {
        Some(Error::PlanNotFound)
    } else if appointments.len() == 0 {
        Some(Error::InvalidInput)
    } else if exists|i: int|
        0 <= i < appointments.len() && #[trigger] appointments[i].scheduled_time <= current_time {
        Some(Error::InvalidDate)
    } else {
        None
    }
}

/// Education: only authorization and plan existence are checked.
pub open spec fn education_err(auth_ok: bool, plan_exists: bool) -> Option<Error> {
    if !auth_ok {
        Some(Error::Unauthorized)
    } else if !plan_exists {
        Some(Error::PlanNotFound)
    } else {
        None
    }
}

/// Facility coordination: the transfer must lie strictly in the future.
pub open spec fn snf_err(
    auth_ok: bool,
    plan_exists: bool,
    transfer_date: u64,
    current_time: u64,
) -> Option<Error> {
    if !auth_ok {
        Some(Error::Unauthorized)
    } else if !plan_exists {
        Some(Error::PlanNotFound)
    } else if transfer_date <= current_time {
        Some(Error::InvalidDate)
    } else {
        None
    }
}

/// Completion: fires exactly once; a second attempt is rejected, not a
/// no-op, whatever its arguments.
pub open spec fn complete_err(auth_ok: bool, plan: Option<DischargePlan>) -> Option<Error> {
    if !auth_ok {
        Some(Error::Unauthorized)
    } else if plan is None {
        Some(Error::PlanNotFound)
    } else if plan->0.is_completed {
        Some(Error::AlreadyCompleted)
    } else {
        None
    }
}

/// Risk tracking: the risk score must be at most 100.
pub open spec fn risk_err(auth_ok: bool, plan_exists: bool, risk_score: u32) -> Option<Error> {
    if !auth_ok {
        Some(Error::Unauthorized)
    } else if !plan_exists {
        Some(Error::PlanNotFound)
    } else if risk_score > MAX_SCORE {
        Some(Error::InvalidScore)
    } else {
        None
    }
}

// ---------------------------------------------------------------------------
// The system invariant over the stored state.
// ---------------------------------------------------------------------------

/// Invariants of the stored state:
/// - every stored plan's identifier is below the plan counter, so the
///   counter's next value is always fresh;
/// - a dependent record exists only for an existing plan;
/// - a completion record exists exactly for the plans marked completed.
pub open spec fn state_inv(m: Map<StorageKey, Record>) -> bool {
    &&& forall|id: u64| #[trigger]
        m.contains_key(StorageKey::Plan(id)) ==> id < count_at(m, StorageKey::Counter)
    &&& forall|id: u64| #[trigger]
        m.contains_key(StorageKey::Readiness(id)) ==> m.contains_key(StorageKey::Plan(id))
    &&& forall|id: u64| #[trigger]
        m.contains_key(StorageKey::Orders(id)) ==> m.contains_key(StorageKey::Plan(id))
    &&& forall|id: u64| #[trigger]
        m.contains_key(StorageKey::HomeHealth(id)) ==> m.contains_key(StorageKey::Plan(id))
    &&& forall|id: u64| #[trigger]
        m.contains_key(StorageKey::Dme(id)) ==> m.contains_key(StorageKey::Plan(id))
    &&& forall|id: u64| #[trigger]
        m.contains_key(StorageKey::Appointments(id)) ==> m.contains_key(StorageKey::Plan(id))
    &&& forall|id: u64| #[trigger]
        m.contains_key(StorageKey::Education(id)) ==> m.contains_key(StorageKey::Plan(id))
    &&& forall|id: u64| #[trigger]
        m.contains_key(StorageKey::SnfCoord(id)) ==> m.contains_key(StorageKey::Plan(id))
    &&& forall|id: u64| #[trigger]
        m.contains_key(StorageKey::Risk(id)) ==> m.contains_key(StorageKey::Plan(id))
    &&& forall|id: u64|
        #![trigger completion_at(m, id)]
        completion_at(m, id) is Some <==> (plan_at(m, id) matches Some(p) && p.is_completed)
}

/// Writing one dependent record of an existing plan (and possibly the
/// appointment counter) preserves the state invariant.
proof fn lemma_inv_write_dependent(
    m0: Map<StorageKey, Record>,
    m1: Map<StorageKey, Record>,
    k: StorageKey,
    id: u64,
)
    requires
        state_inv(m0),
        agrees_except2(m1, m0, k, StorageKey::AppointmentCounter),
        m0.contains_key(StorageKey::Plan(id)),
        k == StorageKey::Readiness(id) || k == StorageKey::Orders(id) || k
            == StorageKey::HomeHealth(id) || k == StorageKey::Dme(id) || k
            == StorageKey::Appointments(id) || k == StorageKey::Education(id) || k
            == StorageKey::SnfCoord(id) || k == StorageKey::Risk(id),
    ensures
        state_inv(m1),
{
    assert(m1.contains_key(StorageKey::Counter) == m0.contains_key(StorageKey::Counter));
    assert(m1.contains_key(StorageKey::Counter)
        ==> m1[StorageKey::Counter] == m0[StorageKey::Counter]);
    assert(count_at(m1, StorageKey::Counter) == count_at(m0, StorageKey::Counter));
    assert(m1.contains_key(StorageKey::Plan(id)));
    assert forall|id2: u64| #[trigger] m1.contains_key(StorageKey::Plan(id2)) implies id2
        < count_at(m1, StorageKey::Counter) by {
        assert(m0.contains_key(StorageKey::Plan(id2)));
    }
    assert forall|id2: u64| #[trigger] m1.contains_key(StorageKey::Readiness(id2)) implies
        m1.contains_key(StorageKey::Plan(id2)) by {
        if StorageKey::Readiness(id2) != k {
            assert(m0.contains_key(StorageKey::Readiness(id2)));
        }
    }
    assert forall|id2: u64| #[trigger] m1.contains_key(StorageKey::Orders(id2)) implies
        m1.contains_key(StorageKey::Plan(id2)) by {
        if StorageKey::Orders(id2) != k {
            assert(m0.contains_key(StorageKey::Orders(id2)));
        }
    }
    assert forall|id2: u64| #[trigger] m1.contains_key(StorageKey::HomeHealth(id2)) implies
        m1.contains_key(StorageKey::Plan(id2)) by {
        if StorageKey::HomeHealth(id2) != k {
            assert(m0.contains_key(StorageKey::HomeHealth(id2)));
        }
    }
    assert forall|id2: u64| #[trigger] m1.contains_key(StorageKey::Dme(id2)) implies
        m1.contains_key(StorageKey::Plan(id2)) by {
        if StorageKey::Dme(id2) != k {
            assert(m0.contains_key(StorageKey::Dme(id2)));
        }
    }
    assert forall|id2: u64| #[trigger] m1.contains_key(StorageKey::Appointments(id2)) implies
        m1.contains_key(StorageKey::Plan(id2)) by {
        if StorageKey::Appointments(id2) != k {
            assert(m0.contains_key(StorageKey::Appointments(id2)));
        }
    }
    assert forall|id2: u64| #[trigger] m1.contains_key(StorageKey::Education(id2)) implies
        m1.contains_key(StorageKey::Plan(id2)) by {
        if StorageKey::Education(id2) != k {
            assert(m0.contains_key(StorageKey::Education(id2)));
        }
    }
    assert forall|id2: u64| #[trigger] m1.contains_key(StorageKey::SnfCoord(id2)) implies
        m1.contains_key(StorageKey::Plan(id2)) by {
        if StorageKey::SnfCoord(id2) != k {
            assert(m0.contains_key(StorageKey::SnfCoord(id2)));
        }
    }
    assert forall|id2: u64| #[trigger] m1.contains_key(StorageKey::Risk(id2)) implies
        m1.contains_key(StorageKey::Plan(id2)) by {
        if StorageKey::Risk(id2) != k {
            assert(m0.contains_key(StorageKey::Risk(id2)));
        }
    }
    assert forall|id2: u64|
        completion_at(m1, id2) is Some <==> (plan_at(m1, id2) matches Some(p)
            && p.is_completed) by {
        assert(m1.contains_key(StorageKey::Plan(id2)) == m0.contains_key(StorageKey::Plan(id2)));
        assert(m1.contains_key(StorageKey::Plan(id2))
            ==> m1[StorageKey::Plan(id2)] == m0[StorageKey::Plan(id2)]);
        assert(plan_at(m1, id2) == plan_at(m0, id2));
        assert(m1.contains_key(StorageKey::Completed(id2)) == m0.contains_key(
            StorageKey::Completed(id2),
        ));
        assert(m1.contains_key(StorageKey::Completed(id2))
            ==> m1[StorageKey::Completed(id2)] == m0[StorageKey::Completed(id2)]);
        assert(completion_at(m1, id2) == completion_at(m0, id2));
    }
}

/// Creating a fresh plan under the counter's current value and advancing
/// the counter preserves the state invariant.
proof fn lemma_inv_create_plan(
    m0: Map<StorageKey, Record>,
    m1: Map<StorageKey, Record>,
    c: u64,
    plan: DischargePlan,
)
    requires
        state_inv(m0),
        c == count_at(m0, StorageKey::Counter),
        c < u64::MAX,
        !plan.is_completed,
        m1 == m0.insert(StorageKey::Counter, Record::Count((c + 1) as u64)).insert(
            StorageKey::Plan(c),
            Record::Plan(plan),
        ),
    ensures
        state_inv(m1),
        count_at(m1, StorageKey::Counter) == c + 1,
        plan_at(m1, c) == Some(plan),
{
    assert(count_at(m1, StorageKey::Counter) == c + 1);
    assert forall|id2: u64| #[trigger] m1.contains_key(StorageKey::Plan(id2)) implies id2
        < count_at(m1, StorageKey::Counter) by {
        if id2 != c {
            assert(m0.contains_key(StorageKey::Plan(id2)));
        }
    }
    assert forall|id2: u64|
        completion_at(m1, id2) is Some <==> (plan_at(m1, id2) matches Some(p)
            && p.is_completed) by {
        assert(m1.contains_key(StorageKey::Completed(id2)) == m0.contains_key(
            StorageKey::Completed(id2),
        ));
        assert(completion_at(m1, id2) == completion_at(m0, id2));
        if id2 == c {
            if completion_at(m0, c) is Some {
                assert(m0.contains_key(StorageKey::Plan(c)));
            }
            assert(plan_at(m1, c) == Some(plan));
        } else {
            assert(plan_at(m1, id2) == plan_at(m0, id2));
        }
    }
}

/// Marking an existing plan completed and writing its completion record
/// preserves the state invariant.
proof fn lemma_inv_complete_plan(
    m0: Map<StorageKey, Record>,
    m1: Map<StorageKey, Record>,
    id: u64,
    plan: DischargePlan,
    completion: CompletionRecord,
)
    requires
        state_inv(m0),
        plan_at(m0, id) is Some,
        plan == (DischargePlan { is_completed: true, ..plan_at(m0, id)->0 }),
        m1 == m0.insert(StorageKey::Plan(id), Record::Plan(plan)).insert(
            StorageKey::Completed(id),
            Record::Completed(completion),
        ),
    ensures
        state_inv(m1),
        plan_at(m1, id) == Some(plan),
        completion_at(m1, id) == Some(completion),
{
    assert(count_at(m1, StorageKey::Counter) == count_at(m0, StorageKey::Counter));
    assert forall|id2: u64| #[trigger] m1.contains_key(StorageKey::Plan(id2)) implies id2
        < count_at(m1, StorageKey::Counter) by {
        assert(m0.contains_key(StorageKey::Plan(id2)));
    }
    assert forall|id2: u64|
        completion_at(m1, id2) is Some <==> (plan_at(m1, id2) matches Some(p)
            && p.is_completed) by {
        if id2 == id {
            assert(plan_at(m1, id) == Some(plan));
            assert(completion_at(m1, id) == Some(completion));
        } else {
            assert(plan_at(m1, id2) == plan_at(m0, id2));
            assert(m1.contains_key(StorageKey::Completed(id2)) == m0.contains_key(
                StorageKey::Completed(id2),
            ));
            assert(completion_at(m1, id2) == completion_at(m0, id2));
        }
    }
}

// ---------------------------------------------------------------------------
// The workflow itself.
// ---------------------------------------------------------------------------

/// The discharge workflow over its keyed record store.
pub struct HospitalDischargeContract {
    storage: Storage,
}

impl HospitalDischargeContract {
    /// The abstract stored state: a finite map from tagged keys to records.
    pub closed spec fn state(self) -> Map<StorageKey, Record> {
        self.storage@
    }

    /// The record store's own well-formedness.
    pub closed spec fn store_wf(self) -> bool {
        self.storage.wf()
    }

    /// Well-formedness: the store's own invariant plus the system invariant
    /// over the stored state.
    pub open spec fn wf(self) -> bool {
        &&& self.store_wf()
        &&& state_inv(self.state())
    }

    /// How many plans have been created; also the next plan identifier.
    pub open spec fn plan_count(self) -> u64 {
        count_at(self.state(), StorageKey::Counter)
    }

    /// How many appointments have been scheduled; also the next appointment
    /// identifier.
    pub open spec fn appointment_count(self) -> u64 {
        count_at(self.state(), StorageKey::AppointmentCounter)
    }

    /// The stored plan of `id`, if any.
    pub open spec fn plan(self, id: u64) -> Option<DischargePlan> {
        plan_at(self.state(), id)
    }

    /// Whether a plan was ever created under `id`.
    pub open spec fn plan_exists(self, id: u64) -> bool {
        self.plan(id) is Some
    }

    /// The stored readiness assessment of plan `id`, if any.
    pub open spec fn readiness(self, id: u64) -> Option<ReadinessScore> {
        readiness_at(self.state(), id)
    }

    /// The discharge order list of plan `id`.
    pub open spec fn orders(self, id: u64) -> Seq<DischargeOrder> {
        orders_at(self.state(), id)
    }

    /// The stored home health arrangement of plan `id`, if any.
    pub open spec fn home_health(self, id: u64) -> Option<HomeHealthArrangement> {
        home_health_at(self.state(), id)
    }

    /// The equipment order list of plan `id`.
    pub open spec fn dme_orders(self, id: u64) -> Seq<DmeOrder> {
        dme_at(self.state(), id)
    }

    /// The follow-up appointment list of plan `id`.
    pub open spec fn appointments(self, id: u64) -> Seq<FollowUpAppointment> {
        appointments_at(self.state(), id)
    }

    /// The education record list of plan `id`.
    pub open spec fn education_records(self, id: u64) -> Seq<EducationRecord> {
        education_at(self.state(), id)
    }

    /// The stored facility coordination of plan `id`, if any.
    pub open spec fn snf_coordination(self, id: u64) -> Option<SnfCoordination> {
        snf_at(self.state(), id)
    }

    /// The write-once completion record of plan `id`, if any.
    pub open spec fn completion(self, id: u64) -> Option<CompletionRecord> {
        completion_at(self.state(), id)
    }

    /// The stored readmission risk record of plan `id`, if any.
    pub open spec fn readmission_risk(self, id: u64) -> Option<ReadmissionRisk> {
        risk_at(self.state(), id)
    }

    /// An empty workflow: no plans, both counters at zero.
    pub fn new() -> (r: HospitalDischargeContract)
        ensures
            r.wf(),
            r.plan_count() == 0,
            r.appointment_count() == 0,
            r.state() == Map::<StorageKey, Record>::empty(),
    {
        HospitalDischargeContract { storage: Storage::new() }
    }

    /// Initialize a new discharge planning process.
    ///
    /// Requires the expected discharge to lie strictly after admission;
    /// allocates the next plan identifier and stores the plan, not yet
    /// completed.  On failure nothing is written.
    pub fn initiate_discharge_planning(
        &mut self,
        auth_ok: bool,
        patient_id: [u8; 32],
        admission_date: u64,
        expected_discharge_date: u64,
        discharge_destination: u32,
        current_time: u64,
    ) -> (r: Result<u64, Error>)
        requires
            old(self).wf(),
            old(self).plan_count() < u64::MAX,
        ensures
            final(self).wf(),
            r matches Err(e) ==> initiate_err(auth_ok, admission_date, expected_discharge_date)
                == Some(e),
            r matches Ok(id) ==> initiate_err(auth_ok, admission_date, expected_discharge_date)
                is None && id == old(self).plan_count(),
            r is Err ==> *final(self) == *old(self),
            r is Ok ==> final(self).plan_count() == old(self).plan_count() + 1,
            r is Ok ==> final(self).plan(old(self).plan_count()) == Some(
                (DischargePlan {
                    patient_id,
                    admission_date,
                    expected_discharge_date,
                    discharge_destination,
                    created_at: current_time,
                    is_completed: false,
                }),
            ),
            r is Ok ==> agrees_except2(
                final(self).state(),
                old(self).state(),
                StorageKey::Counter,
                StorageKey::Plan(old(self).plan_count()),
            ),
    {
        if !auth_ok {
            return Err(Error::Unauthorized);
        }
        if expected_discharge_date <= admission_date {
            return Err(Error::InvalidDate);
        }

        let ghost m0 = self.state();
        let discharge_plan_id = self.storage.get_and_increment_counter();
        self.storage.save_discharge_plan(
            discharge_plan_id,
            patient_id,
            admission_date,
            expected_discharge_date,
            discharge_destination,
            current_time,
        );
        proof {
            let plan = DischargePlan {
                patient_id,
                admission_date,
                expected_discharge_date,
                discharge_destination,
                created_at: current_time,
                is_completed: false,
            };
            lemma_inv_create_plan(m0, self.state(), discharge_plan_id, plan);
        }
        Ok(discharge_plan_id)
    }

    /// Assess the patient's readiness for discharge.
    ///
    /// Requires an existing plan and all four sub-scores at most 100;
    /// overwrites the plan's readiness assessment with the computed record
    /// and returns it.  On failure nothing is written.
    pub fn assess_discharge_readiness(
        &mut self,
        auth_ok: bool,
        discharge_plan_id: u64,
        medical_stability_score: u32,
        functional_status_score: u32,
        support_system_score: u32,
        education_completion_score: u32,
        current_time: u64,
    ) -> (r: Result<ReadinessScore, Error>)
        requires
            old(self).wf(),
        ensures
            final(self).wf(),
            r matches Err(e) ==> assess_err(
                auth_ok,
                old(self).plan_exists(discharge_plan_id),
                medical_stability_score,
                functional_status_score,
                support_system_score,
                education_completion_score,
            ) == Some(e),
            r is Err ==> *final(self) == *old(self),
            r matches Ok(v) ==> assess_err(
                auth_ok,
                old(self).plan_exists(discharge_plan_id),
                medical_stability_score,
                functional_status_score,
                support_system_score,
                education_completion_score,
            ) is None && v == readiness_record(
                discharge_plan_id,
                medical_stability_score,
                functional_status_score,
                support_system_score,
                education_completion_score,
                current_time,
            ) && final(self).readiness(discharge_plan_id) == Some(v) && agrees_except(
                final(self).state(),
                old(self).state(),
                StorageKey::Readiness(discharge_plan_id),
            ),
    {
        if !auth_ok {
            return Err(Error::Unauthorized);
        }
        if !self.storage.discharge_plan_exists(discharge_plan_id) {
            return Err(Error::PlanNotFound);
        }
        if medical_stability_score > MAX_SCORE || functional_status_score > MAX_SCORE
            || support_system_score > MAX_SCORE || education_completion_score > MAX_SCORE {
            return Err(Error::InvalidScore);
        }

        let total_score = (medical_stability_score + functional_status_score
            + support_system_score + education_completion_score) / 4;
        let is_ready = total_score >= READINESS_THRESHOLD;

        let readiness = ReadinessScore {
            discharge_plan_id,
            medical_stability_score,
            functional_status_score,
            support_system_score,
            education_completion_score,
            total_score,
            is_ready,
            assessed_at: current_time,
        };

        let ghost m0 = self.state();
        self.storage.save_readiness_assessment(discharge_plan_id, readiness);
        proof {
            assert(agrees_except2(
                self.state(),
                m0,
                StorageKey::Readiness(discharge_plan_id),
                StorageKey::AppointmentCounter,
            ));
            lemma_inv_write_dependent(
                m0,
                self.state(),
                StorageKey::Readiness(discharge_plan_id),
                discharge_plan_id,
            );
        }
        Ok(readiness)
    }

    /// Create a discharge order (medications, equipment, and so on).
    ///
    /// Requires an existing plan; appends one order to the plan's order
    /// list.  On failure nothing is written.
    pub fn create_discharge_orders(
        &mut self,
        auth_ok: bool,
        discharge_plan_id: u64,
        order_type: u32,
        order_details_hash: [u8; 32],
        current_time: u64,
    ) -> (r: Result<(), Error>)
        requires
            old(self).wf(),
        ensures
            final(self).wf(),
            r matches Err(e) ==> order_err(auth_ok, old(self).plan_exists(discharge_plan_id))
                == Some(e),
            r is Err ==> *final(self) == *old(self),
            r is Ok ==> order_err(auth_ok, old(self).plan_exists(discharge_plan_id)) is None,
            r is Ok ==> final(self).orders(discharge_plan_id) == old(self).orders(
                discharge_plan_id,
            ).push((DischargeOrder { order_type, order_details_hash, created_at: current_time })),
            r is Ok ==> agrees_except(
                final(self).state(),
                old(self).state(),
                StorageKey::Orders(discharge_plan_id),
            ),
    {
        if !auth_ok {
            return Err(Error::Unauthorized);
        }
        if !self.storage.discharge_plan_exists(discharge_plan_id) {
            return Err(Error::PlanNotFound);
        }

        let ghost m0 = self.state();
        self.storage.add_discharge_order(
            discharge_plan_id,
            order_type,
            order_details_hash,
            current_time,
        );
        proof {
            assert(agrees_except2(
                self.state(),
                m0,
                StorageKey::Orders(discharge_plan_id),
                StorageKey::AppointmentCounter,
            ));
            lemma_inv_write_dependent(
                m0,
                self.state(),
                StorageKey::Orders(discharge_plan_id),
                discharge_plan_id,
            );
        }
        Ok(())
    }

    /// Arrange home health services.
    ///
    /// Requires an existing plan and positive frequency and duration;
    /// overwrites the plan's arrangement.  On failure nothing is written.
    pub fn arrange_home_health(
        &mut self,
        auth_ok: bool,
        discharge_plan_id: u64,
        agency_id: [u8; 32],
        service_type: u32,
        frequency_per_week: u32,
        duration_weeks: u32,
        current_time: u64,
    ) -> (r: Result<(), Error>)
        requires
            old(self).wf(),
        ensures
            final(self).wf(),
            r matches Err(e) ==> home_health_err(
                auth_ok,
                old(self).plan_exists(discharge_plan_id),
                frequency_per_week,
                duration_weeks,
            ) == Some(e),
            r is Err ==> *final(self) == *old(self),
            r is Ok ==> home_health_err(
                auth_ok,
                old(self).plan_exists(discharge_plan_id),
                frequency_per_week,
                duration_weeks,
            ) is None,
            r is Ok ==> final(self).home_health(discharge_plan_id) == Some(
                (HomeHealthArrangement {
                    agency_id,
                    service_type,
                    frequency_per_week,
                    duration_weeks,
                    arranged_at: current_time,
                }),
            ),
            r is Ok ==> agrees_except(
                final(self).state(),
                old(self).state(),
                StorageKey::HomeHealth(discharge_plan_id),
            ),
    {
        if !auth_ok {
            return Err(Error::Unauthorized);
        }
        if !self.storage.discharge_plan_exists(discharge_plan_id) {
            return Err(Error::PlanNotFound);
        }
        if frequency_per_week == 0 || duration_weeks == 0 {
            return Err(Error::InvalidInput);
        }

        let ghost m0 = self.state();
        self.storage.save_home_health_arrangement(
            discharge_plan_id,
            agency_id,
            service_type,
            frequency_per_week,
            duration_weeks,
            current_time,
        );
        proof {
            assert(agrees_except2(
                self.state(),
                m0,
                StorageKey::HomeHealth(discharge_plan_id),
                StorageKey::AppointmentCounter,
            ));
            lemma_inv_write_dependent(
                m0,
                self.state(),
                StorageKey::HomeHealth(discharge_plan_id),
                discharge_plan_id,
            );
        }
        Ok(())
    }

    /// Order durable medical equipment for discharge.
    ///
    /// Requires an existing plan and a delivery date strictly in the
    /// future; appends one order to the plan's equipment list.  On failure
    /// nothing is written.
    pub fn order_dme_for_discharge(
        &mut self,
        auth_ok: bool,
        discharge_plan_id: u64,
        equipment_type: u32,
        supplier_id: [u8; 32],
        delivery_date: u64,
        current_time: u64,
    ) -> (r: Result<(), Error>)
        requires
            old(self).wf(),
        ensures
            final(self).wf(),
            r matches Err(e) ==> dme_err(
                auth_ok,
                old(self).plan_exists(discharge_plan_id),
                delivery_date,
                current_time,
            ) == Some(e),
            r is Err ==> *final(self) == *old(self),
            r is Ok ==> dme_err(
                auth_ok,
                old(self).plan_exists(discharge_plan_id),
                delivery_date,
                current_time,
            ) is None,
            r is Ok ==> final(self).dme_orders(discharge_plan_id) == old(self).dme_orders(
                discharge_plan_id,
            ).push(
                (DmeOrder { equipment_type, supplier_id, delivery_date, ordered_at: current_time }),
            ),
            r is Ok ==> agrees_except(
                final(self).state(),
                old(self).state(),
                StorageKey::Dme(discharge_plan_id),
            ),
    {
        if !auth_ok {
            return Err(Error::Unauthorized);
        }
        if !self.storage.discharge_plan_exists(discharge_plan_id) {
            return Err(Error::PlanNotFound);
        }
        if delivery_date <= current_time {
            return Err(Error::InvalidDate);
        }

        let ghost m0 = self.state();
        self.storage.save_dme_order(
            discharge_plan_id,
            equipment_type,
            supplier_id,
            delivery_date,
            current_time,
        );
        proof {
            assert(agrees_except2(
                self.state(),
                m0,
                StorageKey::Dme(discharge_plan_id),
                StorageKey::AppointmentCounter,
            ));
            lemma_inv_write_dependent(
                m0,
                self.state(),
                StorageKey::Dme(discharge_plan_id),
                discharge_plan_id,
            );
        }
        Ok(())
    }

    /// Schedule follow-up appointments as one atomic batch.
    ///
    /// Requires an existing plan and a non-empty batch whose every entry is
    /// scheduled strictly in the future.  Validates the whole batch before
    /// the first write; only then allocates one fresh appointment
    /// identifier per entry, in order, and appends the entries.  One bad
    /// entry rejects the batch wholesale: nothing is persisted, the
    /// appointment counter included.
    pub fn schedule_followup_appointments(
        &mut self,
        auth_ok: bool,
        discharge_plan_id: u64,
        appointments: &Vec<FollowUpAppointment>,
        current_time: u64,
    ) -> (r: Result<Vec<u64>, Error>)
        requires
            old(self).wf(),
            old(self).appointment_count() + appointments@.len() <= u64::MAX,
        ensures
            final(self).wf(),
            r matches Err(e) ==> schedule_err(
                auth_ok,
                old(self).plan_exists(discharge_plan_id),
                appointments@,
                current_time,
            ) == Some(e),
            r is Err ==> *final(self) == *old(self),
            r matches Ok(ids) ==> schedule_err(
                auth_ok,
                old(self).plan_exists(discharge_plan_id),
                appointments@,
                current_time,
            ) is None && ids@.len() == appointments@.len() && (forall|j: int|
                0 <= j < ids@.len() ==> ids@[j] == old(self).appointment_count() + j),
            r is Ok ==> final(self).appointment_count() == old(self).appointment_count()
                + appointments@.len(),
            r is Ok ==> final(self).appointments(discharge_plan_id) == old(self).appointments(
                discharge_plan_id,
            ) + appointments@,
            r is Ok ==> agrees_except2(
                final(self).state(),
                old(self).state(),
                StorageKey::AppointmentCounter,
                StorageKey::Appointments(discharge_plan_id),
            ),
    {
        if !auth_ok {
            return Err(Error::Unauthorized);
        }
        if !self.storage.discharge_plan_exists(discharge_plan_id) {
            return Err(Error::PlanNotFound);
        }
        let n = appointments.len();
        if n == 0 {
            return Err(Error::InvalidInput);
        }

        // Stage: validate every entry before anything is written.
        let mut i: usize = 0;
        while i < n
            invariant
                i <= n,
                0 < n == appointments@.len(),
                auth_ok,
                *self == *old(self),
                old(self).wf(),
                old(self).plan_exists(discharge_plan_id),
                forall|j: int| 0 <= j < i ==> #[trigger] appointments@[j].scheduled_time
                    > current_time,
            decreases n - i,
        {
            if appointments[i].scheduled_time <= current_time {
                return Err(Error::InvalidDate);
            }
            i += 1;
        }

        // Commit: every entry validated, so every write below happens.
        let ghost m0 = self.state();
        let ghost c0 = self.appointment_count();
        let ghost a0 = self.appointments(discharge_plan_id);
        let mut appointment_ids: Vec<u64> = Vec::new();
        let mut i: usize = 0;
        while i < n
            invariant
                i <= n,
                n == appointments@.len(),
                c0 + n <= u64::MAX,
                self.store_wf(),
                state_inv(self.state()),
                self.state().contains_key(StorageKey::Plan(discharge_plan_id)),
                self.appointment_count() == c0 + i,
                self.appointments(discharge_plan_id) == a0 + appointments@.subrange(0, i as int),
                agrees_except2(
                    self.state(),
                    m0,
                    StorageKey::AppointmentCounter,
                    StorageKey::Appointments(discharge_plan_id),
                ),
                appointment_ids@.len() == i,
                forall|j: int| 0 <= j < i ==> appointment_ids@[j] == c0 + j,
            decreases n - i,
        {
            let ghost m_pre = self.state();
            let ghost a_pre = self.appointments(discharge_plan_id);
            let appointment_id = self.storage.get_and_increment_appointment_counter();
            let ghost m_mid = self.state();
            self.storage.save_followup_appointment(
                discharge_plan_id,
                appointment_id,
                appointments[i],
            );
            appointment_ids.push(appointment_id);
            proof {
                let m_b = self.state();
                let ac = StorageKey::AppointmentCounter;
                let ap = StorageKey::Appointments(discharge_plan_id);
                // The counter write left the appointment list untouched.
                assert(appointments_at(m_mid, discharge_plan_id) == appointments_at(
                    m_pre,
                    discharge_plan_id,
                ));
                // The append left the counter untouched.
                assert(m_b.contains_key(ac) == m_mid.contains_key(ac));
                assert(m_b.contains_key(ac) ==> m_b[ac] == m_mid[ac]);
                assert(count_at(m_b, ac) == c0 + i + 1);
                // The plan record is still present.
                assert(m_b.contains_key(StorageKey::Plan(discharge_plan_id)) == m_mid.contains_key(
                    StorageKey::Plan(discharge_plan_id),
                ));
                assert(m_b.contains_key(StorageKey::Plan(discharge_plan_id)));
                // Frame against the state at loop entry.
                assert forall|k3: StorageKey| k3 != ac && k3 != ap implies (m_b.contains_key(k3)
                    == m_pre.contains_key(k3) && (m_b.contains_key(k3) ==> m_b[k3]
                    == m_pre[k3])) by {
                    assert(m_b.contains_key(k3) == m_mid.contains_key(k3));
                    assert(m_b.contains_key(k3) ==> m_b[k3] == m_mid[k3]);
                }
                assert(agrees_except2(m_b, m_pre, ac, ap));
                // Frame against the state before the batch.
                assert forall|k3: StorageKey| k3 != ac && k3 != ap implies (m_b.contains_key(k3)
                    == m0.contains_key(k3) && (m_b.contains_key(k3) ==> m_b[k3] == m0[k3])) by {
                    assert(m_b.contains_key(k3) == m_pre.contains_key(k3));
                    assert(m_b.contains_key(k3) ==> m_b[k3] == m_pre[k3]);
                    assert(m_pre.contains_key(k3) == m0.contains_key(k3));
                    assert(m_pre.contains_key(k3) ==> m_pre[k3] == m0[k3]);
                }
                assert(agrees_except2(m_b, m0, ac, ap));
                lemma_inv_write_dependent(m_pre, m_b, ap, discharge_plan_id);
                // The list grew by exactly this entry.
                assert(self.appointments(discharge_plan_id) =~= a0 + appointments@.subrange(
                    0,
                    i + 1,
                )) by {
                    assert(appointments@.subrange(0, i + 1) =~= appointments@.subrange(
                        0,
                        i as int,
                    ).push(appointments@[i as int]));
                    assert((a0 + appointments@.subrange(0, i as int)).push(
                        appointments@[i as int],
                    ) =~= a0 + appointments@.subrange(0, i as int).push(appointments@[i as int]));
                }
            }
            i += 1;
        }
        proof {
            assert(appointments@.subrange(0, n as int) =~= appointments@);
        }
        Ok(appointment_ids)
    }

    /// Provide discharge education to the patient or family.
    ///
    /// Requires an existing plan; appends one record to the plan's
    /// education list.  On failure nothing is written.
    pub fn provide_discharge_education(
        &mut self,
        auth_ok: bool,
        discharge_plan_id: u64,
        education_topic: u32,
        materials_hash: [u8; 32],
        completed: bool,
        current_time: u64,
    ) -> (r: Result<(), Error>)
        requires
            old(self).wf(),
        ensures
            final(self).wf(),
            r matches Err(e) ==> education_err(auth_ok, old(self).plan_exists(discharge_plan_id))
                == Some(e),
            r is Err ==> *final(self) == *old(self),
            r is Ok ==> education_err(auth_ok, old(self).plan_exists(discharge_plan_id)) is None,
            r is Ok ==> final(self).education_records(discharge_plan_id) == old(
                self,
            ).education_records(discharge_plan_id).push(
                (EducationRecord {
                    education_topic,
                    materials_hash,
                    completed,
                    provided_at: current_time,
                }),
            ),
            r is Ok ==> agrees_except(
                final(self).state(),
                old(self).state(),
                StorageKey::Education(discharge_plan_id),
            ),
    {
        if !auth_ok {
            return Err(Error::Unauthorized);
        }
        if !self.storage.discharge_plan_exists(discharge_plan_id) {
            return Err(Error::PlanNotFound);
        }

        let ghost m0 = self.state();
        self.storage.save_education_record(
            discharge_plan_id,
            education_topic,
            materials_hash,
            completed,
            current_time,
        );
        proof {
            assert(agrees_except2(
                self.state(),
                m0,
                StorageKey::Education(discharge_plan_id),
                StorageKey::AppointmentCounter,
            ));
            lemma_inv_write_dependent(
                m0,
                self.state(),
                StorageKey::Education(discharge_plan_id),
                discharge_plan_id,
            );
        }
        Ok(())
    }

    /// Coordinate the transfer with a skilled nursing facility.
    ///
    /// Requires an existing plan and a transfer date strictly in the
    /// future; overwrites the plan's coordination record.  On failure
    /// nothing is written.
    pub fn coordinate_with_snf(
        &mut self,
        auth_ok: bool,
        discharge_plan_id: u64,
        snf_id: [u8; 32],
        bed_reserved: bool,
        transfer_date: u64,
        medical_summary_hash: [u8; 32],
        current_time: u64,
    ) -> (r: Result<(), Error>)
        requires
            old(self).wf(),
        ensures
            final(self).wf(),
            r matches Err(e) ==> snf_err(
                auth_ok,
                old(self).plan_exists(discharge_plan_id),
                transfer_date,
                current_time,
            ) == Some(e),
            r is Err ==> *final(self) == *old(self),
            r is Ok ==> snf_err(
                auth_ok,
                old(self).plan_exists(discharge_plan_id),
                transfer_date,
                current_time,
            ) is None,
            r is Ok ==> final(self).snf_coordination(discharge_plan_id) == Some(
                (SnfCoordination {
                    snf_id,
                    bed_reserved,
                    transfer_date,
                    medical_summary_hash,
                    coordinated_at: current_time,
                }),
            ),
            r is Ok ==> agrees_except(
                final(self).state(),
                old(self).state(),
                StorageKey::SnfCoord(discharge_plan_id),
            ),
    {
        if !auth_ok {
            return Err(Error::Unauthorized);
        }
        if !self.storage.discharge_plan_exists(discharge_plan_id) {
            return Err(Error::PlanNotFound);
        }
        if transfer_date <= current_time {
            return Err(Error::InvalidDate);
        }

        let ghost m0 = self.state();
        self.storage.save_snf_coordination(
            discharge_plan_id,
            snf_id,
            bed_reserved,
            transfer_date,
            medical_summary_hash,
            current_time,
        );
        proof {
            assert(agrees_except2(
                self.state(),
                m0,
                StorageKey::SnfCoord(discharge_plan_id),
                StorageKey::AppointmentCounter,
            ));
            lemma_inv_write_dependent(
                m0,
                self.state(),
                StorageKey::SnfCoord(discharge_plan_id),
                discharge_plan_id,
            );
        }
        Ok(())
    }

    /// Complete the discharge process.
    ///
    /// Requires an existing plan that is not yet completed.  Marks the plan
    /// completed and writes the write-once completion record; the
    /// transition fires exactly once, and a second attempt is rejected
    /// whatever its arguments.  On failure nothing is written.
    pub fn complete_discharge(
        &mut self,
        auth_ok: bool,
        discharge_plan_id: u64,
        actual_discharge_date: u64,
        discharge_summary_hash: [u8; 32],
    ) -> (r: Result<(), Error>)
        requires
            old(self).wf(),
        ensures
            final(self).wf(),
            r matches Err(e) ==> complete_err(auth_ok, old(self).plan(discharge_plan_id)) == Some(
                e,
            ),
            r is Err ==> *final(self) == *old(self),
            r is Ok ==> complete_err(auth_ok, old(self).plan(discharge_plan_id)) is None,
            r is Ok ==> final(self).plan(discharge_plan_id) == Some(
                (DischargePlan {
                    is_completed: true,
                    ..old(self).plan(discharge_plan_id)->0
                }),
            ),
            r is Ok ==> final(self).completion(discharge_plan_id) == Some(
                (CompletionRecord { actual_discharge_date, discharge_summary_hash }),
            ),
            r is Ok ==> agrees_except2(
                final(self).state(),
                old(self).state(),
                StorageKey::Plan(discharge_plan_id),
                StorageKey::Completed(discharge_plan_id),
            ),
    {
        if !auth_ok {
            return Err(Error::Unauthorized);
        }
        if !self.storage.discharge_plan_exists(discharge_plan_id) {
            return Err(Error::PlanNotFound);
        }
        if self.storage.is_discharge_completed(discharge_plan_id) {
            return Err(Error::AlreadyCompleted);
        }

        let ghost m0 = self.state();
        self.storage.mark_discharge_completed(
            discharge_plan_id,
            actual_discharge_date,
            discharge_summary_hash,
        );
        proof {
            lemma_inv_complete_plan(
                m0,
                self.state(),
                discharge_plan_id,
                DischargePlan { is_completed: true, ..plan_at(m0, discharge_plan_id)->0 },
                CompletionRecord { actual_discharge_date, discharge_summary_hash },
            );
        }
        Ok(())
    }

    /// Track the patient's readmission risk factors.
    ///
    /// Requires an existing plan and a risk score of at most 100;
    /// overwrites the plan's risk record.  On failure nothing is written.
    pub fn track_readmission_risk(
        &mut self,
        auth_ok: bool,
        discharge_plan_id: u64,
        risk_factors: u32,
        risk_score: u32,
        current_time: u64,
    ) -> (r: Result<(), Error>)
        requires
            old(self).wf(),
        ensures
            final(self).wf(),
            r matches Err(e) ==> risk_err(
                auth_ok,
                old(self).plan_exists(discharge_plan_id),
                risk_score,
            ) == Some(e),
            r is Err ==> *final(self) == *old(self),
            r is Ok ==> risk_err(auth_ok, old(self).plan_exists(discharge_plan_id), risk_score)
                is None,
            r is Ok ==> final(self).readmission_risk(discharge_plan_id) == Some(
                (ReadmissionRisk { risk_factors, risk_score, tracked_at: current_time }),
            ),
            r is Ok ==> agrees_except(
                final(self).state(),
                old(self).state(),
                StorageKey::Risk(discharge_plan_id),
            ),
    {
        if !auth_ok {
            return Err(Error::Unauthorized);
        }
        if !self.storage.discharge_plan_exists(discharge_plan_id) {
            return Err(Error::PlanNotFound);
        }
        if risk_score > MAX_SCORE {
            return Err(Error::InvalidScore);
        }

        let ghost m0 = self.state();
        self.storage.save_readmission_risk(
            discharge_plan_id,
            risk_factors,
            risk_score,
            current_time,
        );
        proof {
            assert(agrees_except2(
                self.state(),
                m0,
                StorageKey::Risk(discharge_plan_id),
                StorageKey::AppointmentCounter,
            ));
            lemma_inv_write_dependent(
                m0,
                self.state(),
                StorageKey::Risk(discharge_plan_id),
                discharge_plan_id,
            );
        }
        Ok(())
    }

    /// A copy of the stored plan of `id`, if any.
    pub fn get_discharge_plan(&self, discharge_plan_id: u64) -> (r: Option<DischargePlan>)
        requires
            self.wf(),
        ensures
            r == self.plan(discharge_plan_id),
    {
        match self.storage.get(&StorageKey::Plan(discharge_plan_id)) {
            Some(Record::Plan(p)) => Some(*p),
            _ => None,
        }
    }

    /// A copy of the stored readiness assessment of plan `id`, if any.
    pub fn get_readiness_assessment(&self, discharge_plan_id: u64) -> (r: Option<ReadinessScore>)
        requires
            self.wf(),
        ensures
            r == self.readiness(discharge_plan_id),
    {
        match self.storage.get(&StorageKey::Readiness(discharge_plan_id)) {
            Some(Record::Readiness(v)) => Some(*v),
            _ => None,
        }
    }

    /// A copy of the discharge order list of plan `id`.
    pub fn get_discharge_order_list(&self, discharge_plan_id: u64) -> (r: Vec<DischargeOrder>)
        requires
            self.wf(),
        ensures
            r@ == self.orders(discharge_plan_id),
    {
        match self.storage.get(&StorageKey::Orders(discharge_plan_id)) {
            Some(Record::Orders(v)) => crate::storage::copy_vec(v),
            _ => Vec::new(),
        }
    }

    /// A copy of the stored home health arrangement of plan `id`, if any.
    pub fn get_home_health_arrangement(&self, discharge_plan_id: u64) -> (r: Option<
        HomeHealthArrangement,
    >)
        requires
            self.wf(),
        ensures
            r == self.home_health(discharge_plan_id),
    {
        match self.storage.get(&StorageKey::HomeHealth(discharge_plan_id)) {
            Some(Record::HomeHealth(v)) => Some(*v),
            _ => None,
        }
    }

    /// A copy of the equipment order list of plan `id`.
    pub fn get_dme_order_list(&self, discharge_plan_id: u64) -> (r: Vec<DmeOrder>)
        requires
            self.wf(),
        ensures
            r@ == self.dme_orders(discharge_plan_id),
    {
        match self.storage.get(&StorageKey::Dme(discharge_plan_id)) {
            Some(Record::Dme(v)) => crate::storage::copy_vec(v),
            _ => Vec::new(),
        }
    }

    /// A copy of the follow-up appointment list of plan `id`.
    pub fn get_followup_appointment_list(&self, discharge_plan_id: u64) -> (r: Vec<
        FollowUpAppointment,
    >)
        requires
            self.wf(),
        ensures
            r@ == self.appointments(discharge_plan_id),
    {
        match self.storage.get(&StorageKey::Appointments(discharge_plan_id)) {
            Some(Record::Appointments(v)) => crate::storage::copy_vec(v),
            _ => Vec::new(),
        }
    }

    /// A copy of the education record list of plan `id`.
    pub fn get_education_record_list(&self, discharge_plan_id: u64) -> (r: Vec<EducationRecord>)
        requires
            self.wf(),
        ensures
            r@ == self.education_records(discharge_plan_id),
    {
        match self.storage.get(&StorageKey::Education(discharge_plan_id)) {
            Some(Record::Education(v)) => crate::storage::copy_vec(v),
            _ => Vec::new(),
        }
    }

    /// A copy of the stored facility coordination of plan `id`, if any.
    pub fn get_snf_coordination(&self, discharge_plan_id: u64) -> (r: Option<SnfCoordination>)
        requires
            self.wf(),
        ensures
            r == self.snf_coordination(discharge_plan_id),
    {
        match self.storage.get(&StorageKey::SnfCoord(discharge_plan_id)) {
            Some(Record::SnfCoord(v)) => Some(*v),
            _ => None,
        }
    }

    /// A copy of the write-once completion record of plan `id`, if any.
    pub fn get_completion_record(&self, discharge_plan_id: u64) -> (r: Option<CompletionRecord>)
        requires
            self.wf(),
        ensures
            r == self.completion(discharge_plan_id),
    {
        match self.storage.get(&StorageKey::Completed(discharge_plan_id)) {
            Some(Record::Completed(v)) => Some(*v),
            _ => None,
        }
    }

    /// A copy of the stored readmission risk record of plan `id`, if any.
    pub fn get_readmission_risk(&self, discharge_plan_id: u64) -> (r: Option<ReadmissionRisk>)
        requires
            self.wf(),
        ensures
            r == self.readmission_risk(discharge_plan_id),
    {
        match self.storage.get(&StorageKey::Risk(discharge_plan_id)) {
            Some(Record::Risk(v)) => Some(*v),
            _ => None,
        }
    }

    /// The plan counter's current value: how many plans exist, and the
    /// identifier the next successful creation returns.
    pub fn get_plan_count(&self) -> (r: u64)
        requires
            self.wf(),
        ensures
            r == self.plan_count(),
    {
        match self.storage.get(&StorageKey::Counter) {
            Some(Record::Count(c)) => *c,
            _ => 0,
        }
    }

    /// The appointment counter's current value.
    pub fn get_appointment_count(&self) -> (r: u64)
        requires
            self.wf(),
        ensures
            r == self.appointment_count(),
    {
        match self.storage.get(&StorageKey::AppointmentCounter) {
            Some(Record::Count(c)) => *c,
            _ => 0,
        }
    }

    /// Whether a plan was ever created under `id`.
    pub fn has_discharge_plan(&self, discharge_plan_id: u64) -> (r: bool)
        requires
            self.wf(),
        ensures
            r == self.plan_exists(discharge_plan_id),
    {
        self.storage.discharge_plan_exists(discharge_plan_id)
    }
}

} // verus!
