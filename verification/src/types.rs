//! The record types held in the store.
//!
//! A "reference" field (`patient_id`, `order_details_hash`, ...) is an opaque
//! 32-byte content identifier standing in for off-store data; it is stored
//! verbatim and never interpreted.  All fields are plain values, so every
//! record type is `Copy` and a read can hand out an independent copy.

use vstd::prelude::*;

verus! {

/// One discharge-planning process for one patient episode.
#[derive(Clone, Copy, Debug, PartialEq, Eq)]
pub struct DischargePlan {
    pub patient_id: [u8; 32],
    pub admission_date: u64,
    pub expected_discharge_date: u64,
    /// 0=Home, 1=SNF, 2=Rehab, 3=Other
    pub discharge_destination: u32,
    pub created_at: u64,
    pub is_completed: bool,
}

/// The latest readiness assessment of a plan (last write wins).
#[derive(Clone, Copy, Debug, PartialEq, Eq)]
pub struct ReadinessScore {
    pub discharge_plan_id: u64,
    pub medical_stability_score: u32,
    pub functional_status_score: u32,
    pub support_system_score: u32,
    pub education_completion_score: u32,
    /// Mean of the four sub-scores, rounded down.
    pub total_score: u32,
    /// Whether the total score reaches the readiness threshold of 75.
    pub is_ready: bool,
    pub assessed_at: u64,
}

/// One entry of a plan's append-only discharge order list.
#[derive(Clone, Copy, Debug, PartialEq, Eq)]
pub struct DischargeOrder {
    /// 0=Medication, 1=DME, 2=HomeHealth, 3=Lab
    pub order_type: u32,
    pub order_details_hash: [u8; 32],
    pub created_at: u64,
}

/// The plan's home health arrangement (last write wins).
#[derive(Clone, Copy, Debug, PartialEq, Eq)]
pub struct HomeHealthArrangement {
    pub agency_id: [u8; 32],
    /// 0=Nursing, 1=PT, 2=OT, 3=SpeechTherapy
    pub service_type: u32,
    pub frequency_per_week: u32,
    pub duration_weeks: u32,
    pub arranged_at: u64,
}

/// One entry of a plan's append-only durable-medical-equipment order list.
#[derive(Clone, Copy, Debug, PartialEq, Eq)]
pub struct DmeOrder {
    /// 0=Walker, 1=Wheelchair, 2=OxygenConcentrator, 3=HospitalBed
    pub equipment_type: u32,
    pub supplier_id: [u8; 32],
    pub delivery_date: u64,
    pub ordered_at: u64,
}

/// One follow-up appointment of a plan's append-only appointment list.
#[derive(Clone, Copy, Debug, PartialEq, Eq)]
pub struct FollowUpAppointment {
    pub provider_id: [u8; 32],
    /// 0=PrimaryCare, 1=Cardiology, 2=Surgery, 3=Other
    pub specialty: u32,
    pub scheduled_time: u64,
    pub location_hash: [u8; 32],
}

/// One entry of a plan's append-only education record list.
#[derive(Clone, Copy, Debug, PartialEq, Eq)]
pub struct EducationRecord {
    /// 0=Medications, 1=WoundCare, 2=DietNutrition, 3=ActivityRestrictions
    pub education_topic: u32,
    pub materials_hash: [u8; 32],
    pub completed: bool,
    pub provided_at: u64,
}

/// The plan's skilled-nursing-facility coordination (last write wins).
#[derive(Clone, Copy, Debug, PartialEq, Eq)]
pub struct SnfCoordination {
    pub snf_id: [u8; 32],
    pub bed_reserved: bool,
    pub transfer_date: u64,
    pub medical_summary_hash: [u8; 32],
    pub coordinated_at: u64,
}

/// The plan's readmission risk record (last write wins).
#[derive(Clone, Copy, Debug, PartialEq, Eq)]
pub struct ReadmissionRisk {
    /// Bitmap: 1=MultipleComorbidities, 2=PoorSocialSupport,
    /// 4=MedicationNonCompliance, 8=RecentReadmission
    pub risk_factors: u32,
    /// 0-100
    pub risk_score: u32,
    pub tracked_at: u64,
}

/// The write-once completion record of a discharged plan.
#[derive(Clone, Copy, Debug, PartialEq, Eq)]
pub struct CompletionRecord {
    pub actual_discharge_date: u64,
    pub discharge_summary_hash: [u8; 32],
}

/// A prescription entry as exchanged with outside consumers of the same
/// encoding.  No workflow operation stores it; it is part of the public
/// vocabulary only.
#[derive(Clone, Copy, Debug, PartialEq, Eq)]
pub struct DischargeMedication {
    pub medication_name_hash: [u8; 32],
    pub dosage: u32,
    pub frequency_per_day: u32,
    pub duration_days: u32,
    pub prescriber_id: [u8; 32],
}

} // verus!
